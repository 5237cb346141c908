//! Picking memes at random and answering with their images as data URLs.
use vstd::prelude::*;
use rand::Rng;
use crate::catalog::{images, FileEntry};
use crate::errors::MemeError;
use crate::names::{content_type, content_type_for, image_type_of};

verus! {

/// One meme picked at random.
pub struct RandomMemeResponse {
    pub template_name: String,
    pub image_url: String,
    pub content_type: String,
    pub size_bytes: usize,
    pub generated_at: String,
}

/// One meme asked for by name.
pub struct SpecificMemeResponse {
    pub template_name: String,
    pub image_url: String,
    pub content_type: String,
    pub size_bytes: usize,
    pub requested_at: String,
}

/// Several memes picked at random, and how many there are.
pub struct MultipleMemeResponse {
    pub memes: Vec<RandomMemeResponse>,
    pub count: usize,
    pub generated_at: String,
}

/// What standard, padded base64 makes of a run of bytes.
pub uninterp spec fn base64_of(bytes: Seq<u8>) -> Seq<char>;

/// Relies on base64's `general_purpose::STANDARD.encode`: the text depends on
/// the bytes alone.
#[verifier::external_body]
fn encode_base64(bytes: &Vec<u8>) -> (r: String)
    ensures
        r@ == base64_of(bytes@),
{
    base64::Engine::encode(&base64::engine::general_purpose::STANDARD, bytes)
}

/// Relies on rand's thread-local generator and `Rng::random_range` on the
/// half-open range `0..n`, which is never empty here: an index below `n`.
#[verifier::external_body]
fn random_index(n: usize) -> (r: usize)
    requires
        n > 0,
    ensures
        r < n,
{
    rand::rng().random_range(0..n)
}

/// The data URL of an image: its MIME type and its bytes in base64.
pub open spec fn data_url(mime: Seq<char>, bytes: Seq<u8>) -> Seq<char> {
    "data:"@ + mime + ";base64,"@ + base64_of(bytes)
}

/// The names of the served entries, in directory order.
pub open spec fn image_names(es: Seq<FileEntry>) -> Seq<Seq<char>> {
    images(es).map_values(|e: FileEntry| e.name@)
}

/// `m` answers with the image `bytes` under `name`.
pub open spec fn shows(m: RandomMemeResponse, name: Seq<char>, bytes: Seq<u8>) -> bool {
    &&& m.template_name@ == name
    &&& m.content_type@ == content_type(name)
    &&& m.image_url@ == data_url(content_type(name), bytes)
    &&& m.size_bytes == bytes.len()
}

/// The data URL of `bytes` served as `mime`.
pub fn make_data_url(mime: &str, bytes: &Vec<u8>) -> (r: String)
    ensures
        r@ == data_url(mime@, bytes@),
{
    let payload = encode_base64(bytes);
    let mut url = String::from_str("data:");
    url.append(mime);
    url.append(";base64,");
    url.append(payload.as_str());
    url
}

/// The answer for one meme picked at random, from the bytes that were read.
pub fn build_meme(name: &String, bytes: &Vec<u8>, generated_at: String) -> (r: RandomMemeResponse)
    ensures
        shows(r, name@, bytes@),
        r.generated_at == generated_at,
{
    let mime = content_type_for(name.as_str());
    let image_url = make_data_url(mime.as_str(), bytes);
    RandomMemeResponse {
        template_name: name.clone(),
        image_url,
        content_type: mime,
        size_bytes: bytes.len(),
        generated_at,
    }
}

/// The answer for one meme asked for by name, from the bytes that were read.
pub fn build_specific_meme(name: &String, bytes: &Vec<u8>, requested_at: String) -> (r:
    SpecificMemeResponse)
    ensures
        r.template_name@ == name@,
        r.content_type@ == content_type(name@),
        r.image_url@ == data_url(content_type(name@), bytes@),
        r.size_bytes == bytes.len(),
        r.requested_at == requested_at,
{
    let mime = content_type_for(name.as_str());
    let image_url = make_data_url(mime.as_str(), bytes);
    SpecificMemeResponse {
        template_name: name.clone(),
        image_url,
        content_type: mime,
        size_bytes: bytes.len(),
        requested_at,
    }
}

/// The names of the served entries, in directory order.
pub fn image_file_names(entries: &Vec<FileEntry>) -> (r: Vec<String>)
    ensures
        r@.map_values(|s: String| s@) == image_names(entries@),
{
    let mut r: Vec<String> = Vec::new();
    let mut i: usize = 0;
    while i < entries.len()
        invariant
            i <= entries.len(),
            r@.map_values(|s: String| s@) == image_names(entries@.subrange(0, i as int)),
        decreases entries.len() - i,
    {
        let e = &entries[i];
        let ghost before = entries@.subrange(0, i as int);
        assert(entries@.subrange(0, i + 1) =~= before.push(*e));
        proof {
            before.lemma_filter_push(*e, |x: FileEntry| crate::catalog::is_image(x));
        }
        if image_type_of(e.name.as_str()).is_some() {
            r.push(e.name.clone());
            assert(r@.map_values(|s: String| s@) =~= r@.drop_last().map_values(|s: String| s@).push(
                e.name@,
            ));
            assert(image_names(entries@.subrange(0, i + 1)) =~= image_names(before).push(e.name@));
        } else {
            assert(image_names(entries@.subrange(0, i + 1)) =~= image_names(before));
        }
        i = i + 1;
    }
    assert(entries@.subrange(0, entries.len() as int) =~= entries@);
    r
}

/// The name of the `k`-th served entry, counting from zero in directory
/// order: what a draw of `k` picks.
pub fn template_at(entries: &Vec<FileEntry>, k: usize) -> (r: String)
    requires
        k < image_names(entries@).len(),
    ensures
        r@ == image_names(entries@)[k as int],
{
    let names = image_file_names(entries);
    assert(names@.map_values(|s: String| s@)[k as int] == names@[k as int]@);
    names[k].clone()
}

/// The names that the draws pick, one for each draw and in draw order.
pub fn pick_templates(entries: &Vec<FileEntry>, draws: &Vec<usize>) -> (r: Vec<String>)
    requires
        forall|i: int| 0 <= i < draws.len() ==> #[trigger] draws@[i] < image_names(entries@).len(),
    ensures
        r.len() == draws.len(),
        forall|i: int| 0 <= i < r.len() ==> #[trigger] r@[i]@ == image_names(entries@)[draws@[i] as int],
{
    let names = image_file_names(entries);
    let mut r: Vec<String> = Vec::new();
    let mut i: usize = 0;
    while i < draws.len()
        invariant
            i <= draws.len(),
            r.len() == i,
            names@.map_values(|s: String| s@) == image_names(entries@),
            forall|j: int| 0 <= j < draws.len() ==> #[trigger] draws@[j] < image_names(entries@).len(),
            forall|j: int| 0 <= j < i ==> #[trigger] r@[j]@ == image_names(entries@)[draws@[j] as int],
        decreases draws.len() - i,
    {
        let k = draws[i];
        assert(draws@[i as int] < image_names(entries@).len());
        assert(names@.map_values(|s: String| s@)[k as int] == names@[k as int]@);
        r.push(names[k].clone());
        i = i + 1;
    }
    r
}

/// Picks one served meme at random: `NoMemes` exactly when none is served,
/// else the name that a uniform draw of an index picks.
pub fn choose_template(entries: &Vec<FileEntry>) -> (r: Result<String, MemeError>)
    ensures
        image_names(entries@).len() == 0 ==> r == Err::<String, MemeError>(MemeError::NoMemes),
        image_names(entries@).len() > 0 ==> r is Ok,
        r matches Ok(n) ==> image_names(entries@).contains(n@),
{
    let names = image_file_names(entries);
    if names.len() == 0 {
        return Err(MemeError::NoMemes);
    }
    let k = random_index(names.len());
    let n = template_at(entries, k);
    Ok(n)
}

/// A bulk request may ask for 1 to `MAX_BATCH` memes.
pub open spec fn count_ok(count: u32) -> bool {
    1 <= count <= crate::MAX_BATCH
}

/// Checks the number of memes a bulk request asks for.
pub fn check_count(count: u32) -> (r: Result<(), MemeError>)
    ensures
        count_ok(count) <==> r is Ok,
        !count_ok(count) ==> r == Err::<(), MemeError>(MemeError::InvalidCount),
{
    if count == 0 || count > crate::MAX_BATCH {
        Err(MemeError::InvalidCount)
    } else {
        Ok(())
    }
}

/// Picks `count` served memes by independent draws of an index, repeats
/// allowed, in draw order. A
/// count outside 1 to `MAX_BATCH` is refused first, then an empty directory.
pub fn choose_templates(entries: &Vec<FileEntry>, count: u32) -> (r: Result<Vec<String>, MemeError>)
    ensures
        !count_ok(count) ==> r == Err::<Vec<String>, MemeError>(MemeError::InvalidCount),
        count_ok(count) && image_names(entries@).len() == 0 ==> r == Err::<Vec<String>, MemeError>(
            MemeError::NoMemes,
        ),
        count_ok(count) && image_names(entries@).len() > 0 ==> r is Ok,
        r matches Ok(v) ==> v.len() == count && forall|k: int|
            0 <= k < v.len() ==> image_names(entries@).contains(#[trigger] v@[k]@),
{
    check_count(count)?;
    let names = image_file_names(entries);
    if names.len() == 0 {
        return Err(MemeError::NoMemes);
    }
    let mut draws: Vec<usize> = Vec::new();
    let mut i: u32 = 0;
    while i < count
        invariant
            i <= count,
            draws.len() == i,
            names.len() > 0,
            names@.map_values(|s: String| s@) == image_names(entries@),
            forall|k: int| 0 <= k < draws.len() ==> #[trigger] draws@[k] < image_names(entries@).len(),
        decreases count - i,
    {
        draws.push(random_index(names.len()));
        i = i + 1;
    }
    let picks = pick_templates(entries, &draws);
    assert forall|k: int| 0 <= k < picks.len() implies image_names(entries@).contains(
        #[trigger] picks@[k]@,
    ) by {
        assert(image_names(entries@)[draws@[k] as int] == picks@[k]@);
    }
    Ok(picks)
}

/// The picks whose image could be read, with their bytes, in order.
pub open spec fn loaded_picks(picks: Seq<Seq<char>>, loaded: Seq<Option<Vec<u8>>>) -> Seq<
    (Seq<char>, Seq<u8>),
>
    decreases picks.len(),
{
    if picks.len() == 0 || loaded.len() == 0 {
        Seq::empty()
    } else {
        let init = loaded_picks(picks.drop_last(), loaded.drop_last());
        match loaded.last() {
            Some(b) => init.push((picks.last(), b@)),
            None => init,
        }
    }
}

/// Answers a bulk request from the picks and what reading each one gave:
/// the picks that could not be read are left out, the others answered in
/// order.
pub fn collect_memes(picks: &Vec<String>, loaded: &Vec<Option<Vec<u8>>>, generated_at: String) -> (r:
    MultipleMemeResponse)
    requires
        picks.len() == loaded.len(),
    ensures
        r.count == r.memes.len(),
        r.memes.len() == loaded_picks(picks@.map_values(|s: String| s@), loaded@).len(),
        forall|k: int|
            0 <= k < r.memes.len() ==> shows(
                #[trigger] r.memes@[k],
                loaded_picks(picks@.map_values(|s: String| s@), loaded@)[k].0,
                loaded_picks(picks@.map_values(|s: String| s@), loaded@)[k].1,
            ),
        r.generated_at@ == generated_at@,
{
    let ghost all = picks@.map_values(|s: String| s@);
    let mut memes: Vec<RandomMemeResponse> = Vec::new();
    let mut i: usize = 0;
    while i < picks.len()
        invariant
            i <= picks.len() == loaded.len(),
            all == picks@.map_values(|s: String| s@),
            ({
                let lp = loaded_picks(all.subrange(0, i as int), loaded@.subrange(0, i as int));
                &&& memes.len() == lp.len()
                &&& forall|k: int| 0 <= k < memes.len() ==> shows(#[trigger] memes@[k], lp[k].0, lp[k].1)
            }),
        decreases picks.len() - i,
    {
        let ghost pa = all.subrange(0, i + 1);
        let ghost la = loaded@.subrange(0, i + 1);
        assert(pa.drop_last() =~= all.subrange(0, i as int));
        assert(la.drop_last() =~= loaded@.subrange(0, i as int));
        assert(pa.last() == picks@[i as int]@);
        assert(la.last() == loaded@[i as int]);
        match &loaded[i] {
            Some(bytes) => {
                let m = build_meme(&picks[i], bytes, generated_at.clone());
                memes.push(m);
            },
            None => {},
        }
        i = i + 1;
    }
    assert(all.subrange(0, picks.len() as int) =~= all);
    assert(loaded@.subrange(0, picks.len() as int) =~= loaded@);
    let count = memes.len();
    MultipleMemeResponse { memes, count, generated_at }
}

/// A bulk answer never holds more memes than were picked, and holds all of
/// them when every read succeeded.
pub proof fn lemma_loaded_picks_len(picks: Seq<Seq<char>>, loaded: Seq<Option<Vec<u8>>>)
    requires
        picks.len() == loaded.len(),
    ensures
        loaded_picks(picks, loaded).len() <= picks.len(),
        (forall|k: int| 0 <= k < loaded.len() ==> (#[trigger] loaded[k]) is Some) ==> loaded_picks(
            picks,
            loaded,
        ).len() == picks.len(),
    decreases picks.len(),
{
    if picks.len() > 0 {
        let ld = loaded.drop_last();
        lemma_loaded_picks_len(picks.drop_last(), ld);
        if forall|k: int| 0 <= k < loaded.len() ==> (#[trigger] loaded[k]) is Some {
            assert forall|k: int| 0 <= k < ld.len() implies (#[trigger] ld[k]) is Some by {
                assert(ld[k] == loaded[k]);
            }
            assert(loaded[loaded.len() - 1] is Some);
        }
    }
}

} // verus!
