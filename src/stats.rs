//! Aggregate figures over the served memes.
use vstd::prelude::*;
use crate::catalog::{is_image, FileEntry};
use crate::names::{image_type, image_type_of, ImageType};

verus! {

/// Figures over the served memes. `file_types` counts them by normalised
/// type ("jpeg", which takes jpg too, "png", "gif"), each type listed once,
/// in that order, and only when it occurs.
pub struct MemeStats {
    pub total_memes: u32,
    pub total_size_bytes: u64,
    pub average_file_size: u64,
    pub largest_file_name: String,
    pub largest_file_size: u64,
    pub smallest_file_name: String,
    pub smallest_file_size: u64,
    pub file_types: Vec<(String, u32)>,
}

/// The figures as mathematical values.
pub struct StatsModel {
    pub count: nat,
    pub total: nat,
    pub largest: nat,
    pub largest_name: Seq<char>,
    pub smallest: nat,
    pub smallest_name: Seq<char>,
    pub jpeg: nat,
    pub png: nat,
    pub gif: nat,
}

/// The figures before any entry is seen.
pub open spec fn empty_stats() -> StatsModel {
    StatsModel {
        count: 0,
        total: 0,
        largest: 0,
        largest_name: Seq::empty(),
        smallest: 0,
        smallest_name: Seq::empty(),
        jpeg: 0,
        png: 0,
        gif: 0,
    }
}

/// The figures after one more served entry. A larger size replaces the
/// largest only when strictly greater. A smallest size of zero means "none
/// yet", so a file of zero bytes is replaced by whatever follows it.
pub open spec fn stats_step(m: StatsModel, e: FileEntry) -> StatsModel {
    let m1 = StatsModel { count: m.count + 1, ..m };
    let m2 = match e.size {
        Some(s) => {
            let a = StatsModel { total: m1.total + s as nat, ..m1 };
            let b = if s > a.largest {
                StatsModel { largest: s as nat, largest_name: e.name@, ..a }
            } else {
                a
            };
            if b.smallest == 0 || s < b.smallest {
                StatsModel { smallest: s as nat, smallest_name: e.name@, ..b }
            } else {
                b
            }
        },
        None => m1,
    };
    match image_type(e.name@) {
        Some(ImageType::Png) => StatsModel { png: m2.png + 1, ..m2 },
        Some(ImageType::Gif) => StatsModel { gif: m2.gif + 1, ..m2 },
        _ => StatsModel { jpeg: m2.jpeg + 1, ..m2 },
    }
}

/// The figures over the served entries among `es`, in order.
pub open spec fn stats_of(es: Seq<FileEntry>) -> StatsModel
    decreases es.len(),
{
    if es.len() == 0 {
        empty_stats()
    } else {
        let m = stats_of(es.drop_last());
        if is_image(es.last()) {
            stats_step(m, es.last())
        } else {
            m
        }
    }
}

/// The per-type counts as listed: those that occur, in the order jpeg, png, gif.
pub open spec fn type_counts(m: StatsModel) -> Seq<(Seq<char>, nat)> {
    let a = if m.jpeg > 0 { seq![("jpeg"@, m.jpeg)] } else { Seq::empty() };
    let b = if m.png > 0 { a.push(("png"@, m.png)) } else { a };
    if m.gif > 0 { b.push(("gif"@, m.gif)) } else { b }
}

/// The view of a listed count.
pub open spec fn count_view(p: (String, u32)) -> (Seq<char>, nat) {
    (p.0@, p.1 as nat)
}

/// The figures fit the machine words that hold them.
pub open spec fn stats_fit_spec(es: Seq<FileEntry>) -> bool {
    es.len() <= u32::MAX && stats_of(es).total <= u64::MAX
}

/// `r` holds the figures `m`.
pub open spec fn holds_stats(r: MemeStats, m: StatsModel) -> bool {
    &&& r.total_memes == m.count
    &&& r.total_size_bytes == m.total
    &&& r.largest_file_size == m.largest
    &&& r.largest_file_name@ == m.largest_name
    &&& r.smallest_file_size == m.smallest
    &&& r.smallest_file_name@ == m.smallest_name
}

/// Each count, and the total, only grows along the entries.
pub proof fn lemma_stats_grow(es: Seq<FileEntry>, i: int)
    requires
        0 <= i <= es.len(),
    ensures
        stats_of(es.subrange(0, i)).total <= stats_of(es).total,
        stats_of(es).count <= es.len(),
        stats_of(es).jpeg + stats_of(es).png + stats_of(es).gif == stats_of(es).count,
    decreases es.len(),
{
    if es.len() > 0 {
        if i == es.len() {
            assert(es.subrange(0, i) =~= es);
        } else {
            assert(es.drop_last().subrange(0, i) =~= es.subrange(0, i));
        }
        lemma_stats_grow(es.drop_last(), if i == es.len() { 0 } else { i });
    }
}

/// Whether the figures over `entries` fit the machine words that hold them.
pub fn stats_fit(entries: &Vec<FileEntry>) -> (r: bool)
    ensures
        r == stats_fit_spec(entries@),
{
    if entries.len() > u32::MAX as usize {
        return false;
    }
    let mut total: u64 = 0;
    let mut i: usize = 0;
    while i < entries.len()
        invariant
            i <= entries.len() <= u32::MAX,
            total == stats_of(entries@.subrange(0, i as int)).total,
        decreases entries.len() - i,
    {
        let ghost before = entries@.subrange(0, i as int);
        assert(entries@.subrange(0, i + 1).drop_last() =~= before);
        let e = &entries[i];
        if image_type_of(e.name.as_str()).is_some() {
            match e.size {
                Some(n) => {
                    match total.checked_add(n) {
                        Some(t) => {
                            total = t;
                        },
                        None => {
                            proof {
                                lemma_stats_grow(entries@, i + 1);
                            }
                            return false;
                        },
                    }
                },
                None => {},
            }
        }
        i = i + 1;
    }
    assert(entries@.subrange(0, entries.len() as int) =~= entries@);
    true
}

/// Figures over the served entries: their number and total size, the
/// average size rounded down (zero when there are none), the largest and
/// the smallest with their names, and the counts by type. Entries whose size
/// could not be read count in the number and the types, not in the sizes.
pub fn get_meme_stats(entries: &Vec<FileEntry>) -> (r: MemeStats)
    requires
        stats_fit_spec(entries@),
    ensures
        holds_stats(r, stats_of(entries@)),
        r.average_file_size == if stats_of(entries@).count > 0 {
            stats_of(entries@).total / stats_of(entries@).count
        } else {
            0
        },
        r.file_types@.map_values(|p: (String, u32)| count_view(p)) == type_counts(stats_of(entries@)),
{
    let mut count: u32 = 0;
    let mut total: u64 = 0;
    let mut largest: u64 = 0;
    let mut largest_name = String::new();
    let mut smallest: u64 = 0;
    let mut smallest_name = String::new();
    let mut jpeg: u32 = 0;
    let mut png: u32 = 0;
    let mut gif: u32 = 0;
    let mut i: usize = 0;
    while i < entries.len()
        invariant
            i <= entries.len(),
            stats_fit_spec(entries@),
            ({
                let m = stats_of(entries@.subrange(0, i as int));
                &&& count == m.count
                &&& total == m.total
                &&& largest == m.largest
                &&& largest_name@ == m.largest_name
                &&& smallest == m.smallest
                &&& smallest_name@ == m.smallest_name
                &&& jpeg == m.jpeg
                &&& png == m.png
                &&& gif == m.gif
            }),
        decreases entries.len() - i,
    {
        let ghost before = entries@.subrange(0, i as int);
        assert(entries@.subrange(0, i + 1).drop_last() =~= before);
        proof {
            lemma_stats_grow(entries@, i + 1);
            lemma_stats_grow(before, 0);
        }
        let e = &entries[i];
        match image_type_of(e.name.as_str()) {
            Some(t) => {
                count = count + 1;
                match e.size {
                    Some(n) => {
                        total = total + n;
                        if n > largest {
                            largest = n;
                            largest_name = e.name.clone();
                        }
                        if smallest == 0 || n < smallest {
                            smallest = n;
                            smallest_name = e.name.clone();
                        }
                    },
                    None => {},
                }
                match t {
                    ImageType::Png => {
                        png = png + 1;
                    },
                    ImageType::Gif => {
                        gif = gif + 1;
                    },
                    _ => {
                        jpeg = jpeg + 1;
                    },
                }
            },
            None => {},
        }
        i = i + 1;
    }
    assert(entries@.subrange(0, entries.len() as int) =~= entries@);
    let average_file_size: u64 = if count > 0 {
        total / (count as u64)
    } else {
        0
    };
    let mut file_types: Vec<(String, u32)> = Vec::new();
    proof {
        reveal_strlit("jpeg");
        reveal_strlit("png");
        reveal_strlit("gif");
    }
    if jpeg > 0 {
        file_types.push((String::from_str("jpeg"), jpeg));
    }
    if png > 0 {
        file_types.push((String::from_str("png"), png));
    }
    if gif > 0 {
        file_types.push((String::from_str("gif"), gif));
    }
    assert(file_types@.map_values(|p: (String, u32)| count_view(p)) =~= type_counts(
        stats_of(entries@),
    ));
    MemeStats {
        total_memes: count,
        total_size_bytes: total,
        average_file_size,
        largest_file_name: largest_name,
        largest_file_size: largest,
        smallest_file_name: smallest_name,
        smallest_file_size: smallest,
        file_types,
    }
}

} // verus!
