//! The catalogue: which directory entries are served as memes, their listing
//! and the search over their names.
use vstd::prelude::*;
use crate::names::{extension, image_type, image_type_of, lowers_to, type_text, ImageType};

verus! {

/// One entry of the memes directory as it was read: its file name, its full
/// path, its size when its metadata could be read, and its modification time
/// in seconds since the Unix epoch when that could be read.
pub struct FileEntry {
    pub name: String,
    pub path: String,
    pub size: Option<u64>,
    pub modified_secs: Option<i64>,
}

/// A meme as the listing and the search describe it.
pub struct MemeTemplate {
    pub name: String,
    pub path: String,
    pub size_bytes: u64,
    pub file_type: String,
    pub last_modified: Option<String>,
}

/// The answer of the listing.
pub struct TemplatesResponse {
    pub templates: Vec<MemeTemplate>,
    pub total_count: usize,
}

/// A search request: the term to look for.
pub struct SearchQuery {
    pub q: String,
}

/// The answer of a search: the folded term, the matches and their number.
pub struct SearchResponse {
    pub query: String,
    pub results: Vec<MemeTemplate>,
    pub count: usize,
}

/// What an RFC 3339 rendering of a Unix time in seconds gives, or `None`
/// where the time is out of the representable range.
pub uninterp spec fn rfc3339_of(secs: int) -> Option<Seq<char>>;

/// What lower-casing a text gives, by Unicode's rules.
pub uninterp spec fn lower_of(s: Seq<char>) -> Seq<char>;

/// Relies on chrono's `DateTime::<Utc>::from_timestamp(secs, 0)`, which is
/// `None` out of range, and `to_rfc3339` on its result: a function of `secs`.
#[verifier::external_body]
fn timestamp_text(secs: i64) -> (r: Option<String>)
    ensures
        match r {
            Some(t) => rfc3339_of(secs as int) == Some(t@),
            None => rfc3339_of(secs as int) is None,
        },
{
    chrono::DateTime::from_timestamp(secs, 0).map(|dt| dt.to_rfc3339())
}

/// Relies on std's `str::to_lowercase`: the result depends on the text alone.
#[verifier::external_body]
fn lowercase(s: &str) -> (r: String)
    ensures
        r@ == lower_of(s@),
        s@.len() == 0 ==> r@.len() == 0,
{
    s.to_lowercase()
}

/// The view of an optional text.
pub open spec fn opt_text(o: Option<String>) -> Option<Seq<char>> {
    match o {
        Some(s) => Some(s@),
        None => None,
    }
}

/// An entry is served when its name has an allowed image extension.
pub open spec fn is_image(e: FileEntry) -> bool {
    image_type(e.name@) is Some
}

/// The entries that are served, in directory order.
pub open spec fn images(es: Seq<FileEntry>) -> Seq<FileEntry> {
    es.filter(|e: FileEntry| is_image(e))
}

/// An entry is listed when it is served and its metadata could be read; an
/// entry whose metadata could not be read is left out of the listing and of
/// the search.
pub open spec fn is_listed(e: FileEntry) -> bool {
    is_image(e) && e.size is Some
}

/// The entries that are listed, in directory order.
pub open spec fn listed(es: Seq<FileEntry>) -> Seq<FileEntry> {
    es.filter(|e: FileEntry| is_listed(e))
}

/// The text of an entry's modification time, if there is one to give.
pub open spec fn modified_text(m: Option<i64>) -> Option<Seq<char>> {
    match m {
        Some(x) => rfc3339_of(x as int),
        None => None,
    }
}

/// `t` describes the listed entry `e`.
pub open spec fn describes(t: MemeTemplate, e: FileEntry) -> bool {
    &&& is_listed(e)
    &&& t.name@ == e.name@
    &&& t.path@ == e.path@
    &&& t.size_bytes == e.size->0
    &&& t.file_type@ == type_text(image_type(e.name@)->0)
    &&& opt_text(t.last_modified) == modified_text(e.modified_secs)
}

/// `ts` describes the entries `es`, one for one and in order.
pub open spec fn describes_all(ts: Seq<MemeTemplate>, es: Seq<FileEntry>) -> bool {
    ts.len() == es.len() && forall|k: int| 0 <= k < ts.len() ==> describes(#[trigger] ts[k], es[k])
}

/// An entry of the directory is served exactly when its name has an
/// extension that, ASCII case aside, is jpg, jpeg, png or gif.
pub proof fn lemma_served_iff_allowed(es: Seq<FileEntry>, e: FileEntry)
    requires
        es.contains(e),
    ensures
        images(es).contains(e) <==> (extension(e.name@) matches Some(x) && (lowers_to(
            x,
            seq!['j', 'p', 'g'],
        ) || lowers_to(x, seq!['j', 'p', 'e', 'g']) || lowers_to(x, seq!['p', 'n', 'g'])
            || lowers_to(x, seq!['g', 'i', 'f']))),
{
    let p = |x: FileEntry| is_image(x);
    if is_image(e) {
        es.lemma_filter_contains_rev(p, e);
    } else if images(es).contains(e) {
        let k = choose|k: int| 0 <= k < images(es).len() && images(es)[k] == e;
        es.lemma_filter_pred(p, k);
    }
}

/// The lower-case text of an image type.
pub fn type_string(t: ImageType) -> (r: String)
    ensures
        r@ == type_text(t),
{
    proof {
        reveal_strlit("jpg");
        reveal_strlit("jpeg");
        reveal_strlit("png");
        reveal_strlit("gif");
    }
    match t {
        ImageType::Jpg => String::from_str("jpg"),
        ImageType::Jpeg => String::from_str("jpeg"),
        ImageType::Png => String::from_str("png"),
        ImageType::Gif => String::from_str("gif"),
    }
}

/// The description of a listed entry.
pub fn template_of(e: &FileEntry, t: ImageType, size_bytes: u64) -> (r: MemeTemplate)
    requires
        image_type(e.name@) == Some(t),
        e.size == Some(size_bytes),
    ensures
        describes(r, *e),
{
    let last_modified = match e.modified_secs {
        Some(x) => timestamp_text(x),
        None => None,
    };
    MemeTemplate {
        name: e.name.clone(),
        path: e.path.clone(),
        size_bytes,
        file_type: type_string(t),
        last_modified,
    }
}

/// Describes the listed entries: exactly those whose extension is jpg, jpeg,
/// png or gif in any case and whose metadata could be read, in directory
/// order.
pub fn image_templates(entries: &Vec<FileEntry>) -> (r: Vec<MemeTemplate>)
    ensures
        describes_all(r@, listed(entries@)),
{
    let mut r: Vec<MemeTemplate> = Vec::new();
    let mut i: usize = 0;
    while i < entries.len()
        invariant
            i <= entries.len(),
            describes_all(r@, listed(entries@.subrange(0, i as int))),
        decreases entries.len() - i,
    {
        let e = &entries[i];
        let ghost before = entries@.subrange(0, i as int);
        let ghost after = entries@.subrange(0, i + 1);
        assert(after =~= before.push(*e));
        proof {
            before.lemma_filter_push(*e, |x: FileEntry| is_listed(x));
        }
        assert(listed(after) == if is_listed(*e) {
            listed(before).push(*e)
        } else {
            listed(before)
        });
        match (image_type_of(e.name.as_str()), e.size) {
            (Some(t), Some(n)) => {
                let m = template_of(e, t, n);
                r.push(m);
            },
            _ => {},
        }
        i = i + 1;
    }
    assert(entries@.subrange(0, entries.len() as int) =~= entries@);
    r
}

/// `a` comes no later than `b` in the order of their characters' code
/// points, which is the byte order of their UTF-8 forms.
pub open spec fn text_le(a: Seq<char>, b: Seq<char>) -> bool
    decreases a.len(),
{
    if a.len() == 0 {
        true
    } else if b.len() == 0 {
        false
    } else if (a[0] as u32) != (b[0] as u32) {
        (a[0] as u32) < (b[0] as u32)
    } else {
        text_le(a.drop_first(), b.drop_first())
    }
}

/// Of two texts, one comes no later than the other.
pub proof fn lemma_text_le_total(a: Seq<char>, b: Seq<char>)
    ensures
        text_le(a, b) || text_le(b, a),
    decreases a.len(),
{
    if a.len() > 0 && b.len() > 0 && (a[0] as u32) == (b[0] as u32) {
        lemma_text_le_total(a.drop_first(), b.drop_first());
    }
}

/// The order of texts is transitive.
pub proof fn lemma_text_le_trans(a: Seq<char>, b: Seq<char>, c: Seq<char>)
    requires
        text_le(a, b),
        text_le(b, c),
    ensures
        text_le(a, c),
    decreases a.len(),
{
    if a.len() > 0 && b.len() > 0 && c.len() > 0 && (a[0] as u32) == (b[0] as u32) && (b[0] as u32) == (c[0] as u32) {
        lemma_text_le_trans(a.drop_first(), b.drop_first(), c.drop_first());
    }
}

/// Whether `a` comes no later than `b`.
pub fn name_le(a: &str, b: &str) -> (r: bool)
    ensures
        r == text_le(a@, b@),
{
    let n = a.unicode_len();
    let m = b.unicode_len();
    let mut i: usize = 0;
    assert(a@.skip(0) =~= a@ && b@.skip(0) =~= b@);
    while i < n && i < m
        invariant
            i <= n == a@.len(),
            i <= m == b@.len(),
            text_le(a@, b@) == text_le(a@.skip(i as int), b@.skip(i as int)),
        decreases n - i,
    {
        let ca = a.get_char(i);
        let cb = b.get_char(i);
        assert(a@.skip(i as int)[0] == ca && b@.skip(i as int)[0] == cb);
        if (ca as u32) != (cb as u32) {
            return (ca as u32) < (cb as u32);
        }
        assert(a@.skip(i as int).drop_first() =~= a@.skip(i + 1));
        assert(b@.skip(i as int).drop_first() =~= b@.skip(i + 1));
        i = i + 1;
    }
    i == n
}

/// The templates are in the order of their names.
pub open spec fn sorted_by_name(s: Seq<MemeTemplate>) -> bool {
    forall|i: int, j: int| 0 <= i < j < s.len() ==> text_le(#[trigger] s[i].name@, #[trigger] s[j].name@)
}

/// The same templates, in the order of their names; equal names keep no
/// particular order.
pub fn sort_by_name(v: Vec<MemeTemplate>) -> (r: Vec<MemeTemplate>)
    ensures
        r@.to_multiset() == v@.to_multiset(),
        sorted_by_name(r@),
{
    broadcast use vstd::seq_lib::group_to_multiset_ensures;

    let ghost all = v@;
    let mut rest = v;
    let mut out: Vec<MemeTemplate> = Vec::new();
    while rest.len() > 0
        invariant
            out@.to_multiset().add(rest@.to_multiset()) == all.to_multiset(),
            sorted_by_name(out@),
        decreases rest.len(),
    {
        let ghost before = rest@;
        let x = match rest.pop() {
            Some(x) => x,
            None => {
                return out;
            },
        };
        assert(before =~= rest@.push(x));
        let mut p: usize = out.len();
        while p > 0 && !name_le(out[p - 1].name.as_str(), x.name.as_str())
            invariant
                p <= out.len(),
                forall|k: int| p <= k < out.len() ==> !text_le(#[trigger] out@[k].name@, x.name@),
            decreases p,
        {
            p = p - 1;
        }
        let ghost old_out = out@;
        out.insert(p, x);
        assert(sorted_by_name(out@)) by {
            assert forall|i: int, j: int| 0 <= i < j < out@.len() implies text_le(
                #[trigger] out@[i].name@,
                #[trigger] out@[j].name@,
            ) by {
                if j < p {
                    assert(out@[i] == old_out[i] && out@[j] == old_out[j]);
                } else if j == p {
                    assert(out@[i] == old_out[i]);
                    if i < p - 1 {
                        assert(text_le(old_out[i].name@, old_out[p - 1].name@));
                        lemma_text_le_trans(old_out[i].name@, old_out[p - 1].name@, x.name@);
                    }
                } else if i == p {
                    assert(out@[j] == old_out[j - 1]);
                    lemma_text_le_total(old_out[j - 1].name@, x.name@);
                } else if i < p {
                    assert(out@[i] == old_out[i] && out@[j] == old_out[j - 1]);
                    lemma_text_le_total(old_out[j - 1].name@, x.name@);
                    if i < p - 1 {
                        assert(text_le(old_out[i].name@, old_out[p - 1].name@));
                        lemma_text_le_trans(old_out[i].name@, old_out[p - 1].name@, x.name@);
                    }
                    lemma_text_le_trans(old_out[i].name@, x.name@, old_out[j - 1].name@);
                } else {
                    assert(out@[i] == old_out[i - 1] && out@[j] == old_out[j - 1]);
                }
            }
        }
        proof {
            vstd::seq_lib::to_multiset_insert(old_out, p as int, x);
            vstd::seq_lib::to_multiset_build(rest@, x);
        }
    }
    assert(rest@ =~= Seq::<MemeTemplate>::empty());
    out
}

/// The listing: every listed entry described, in the order of their names,
/// and their number.
pub fn list_templates(entries: &Vec<FileEntry>) -> (r: TemplatesResponse)
    ensures
        exists|u: Seq<MemeTemplate>|
            describes_all(u, listed(entries@)) && #[trigger] u.to_multiset()
                == r.templates@.to_multiset(),
        sorted_by_name(r.templates@),
        r.total_count == r.templates.len(),
{
    let found = image_templates(entries);
    let ghost u = found@;
    let templates = sort_by_name(found);
    assert(describes_all(u, listed(entries@)) && u.to_multiset() == templates@.to_multiset());
    let total_count = templates.len();
    TemplatesResponse { templates, total_count }
}

/// `needle` occurs in `hay` as a run of consecutive characters.
pub open spec fn occurs_in(needle: Seq<char>, hay: Seq<char>) -> bool {
    exists|i: int| 0 <= i && i + needle.len() <= hay.len() && #[trigger] hay.subrange(i, i + needle.len()) == needle
}

/// Whether the folded term occurs in the folded name: what a search decides
/// once both texts are lower-cased.
pub fn matches_folded(term: &str, name: &str) -> (r: bool)
    ensures
        r == occurs_in(term@, name@),
{
    let m = term.unicode_len();
    let n = name.unicode_len();
    if m > n {
        assert forall|i: int| 0 <= i && i + m <= n implies #[trigger] name@.subrange(i, i + m) != term@ by {}
        return false;
    }
    let mut i: usize = 0;
    while i <= n - m
        invariant
            m <= n,
            i <= n - m + 1,
            m == term@.len(),
            n == name@.len(),
            forall|p: int| 0 <= p < i ==> #[trigger] name@.subrange(p, p + m) != term@,
        decreases n + 1 - i,
    {
        let mut j: usize = 0;
        let mut same = true;
        while j < m && same
            invariant
                j <= m,
                i + m <= n,
                m == term@.len(),
                n == name@.len(),
                same ==> forall|k: int| 0 <= k < j ==> name@[i + k] == term@[k],
                !same ==> name@[i + j - 1] != term@[j - 1] && j >= 1,
            decreases m - j + (if same { 1int } else { 0int }),
        {
            if name.get_char(i + j) != term.get_char(j) {
                same = false;
            }
            j = j + 1;
        }
        if same {
            assert(name@.subrange(i as int, i + m) =~= term@);
            return true;
        }
        assert(name@.subrange(i as int, i + m)[j - 1] != term@[j - 1]);
        i = i + 1;
    }
    assert forall|p: int| 0 <= p && p + m <= n implies #[trigger] name@.subrange(p, p + m) != term@ by {
        assert(p < i);
    }
    false
}

/// The listed entries whose lower-cased name holds the lower-cased term.
pub open spec fn search_hits(es: Seq<FileEntry>, term: Seq<char>) -> Seq<FileEntry> {
    es.filter(|e: FileEntry| is_listed(e) && occurs_in(term, lower_of(e.name@)))
}

/// Searches the listed entries by name, without regard to case: the answer
/// holds the folded term, the matches in directory order and their number.
pub fn search_memes(query: &SearchQuery, entries: &Vec<FileEntry>) -> (r: SearchResponse)
    ensures
        r.query@ == lower_of(query.q@),
        describes_all(r.results@, search_hits(entries@, lower_of(query.q@))),
        r.count == r.results.len(),
{
    let term = lowercase(query.q.as_str());
    let ghost t = term@;
    let mut results: Vec<MemeTemplate> = Vec::new();
    let mut i: usize = 0;
    while i < entries.len()
        invariant
            i <= entries.len(),
            t == term@,
            describes_all(results@, search_hits(entries@.subrange(0, i as int), t)),
        decreases entries.len() - i,
    {
        let e = &entries[i];
        let ghost before = entries@.subrange(0, i as int);
        let ghost after = entries@.subrange(0, i + 1);
        assert(after =~= before.push(*e));
        proof {
            before.lemma_filter_push(
                *e,
                |x: FileEntry| is_listed(x) && occurs_in(t, lower_of(x.name@)),
            );
        }
        match (image_type_of(e.name.as_str()), e.size) {
            (Some(ty), Some(n)) => {
                let folded = lowercase(e.name.as_str());
                if matches_folded(term.as_str(), folded.as_str()) {
                    let m = template_of(e, ty, n);
                    results.push(m);
                }
            },
            _ => {},
        }
        i = i + 1;
    }
    assert(entries@.subrange(0, entries.len() as int) =~= entries@);
    let count = results.len();
    SearchResponse { query: term, results, count }
}

} // verus!
