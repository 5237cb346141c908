//! The favourites list: an ordered list of file names kept as a JSON array.
use vstd::prelude::*;
use crate::errors::MemeError;
use crate::names::{check_meme_name, is_safe_name};

verus! {

/// A request to toggle one name in the favourites.
pub struct FavoriteRequest {
    pub meme_name: String,
}

/// The answer of a toggle: the name, whether it is now a favourite, and a
/// message that says which way it went.
pub struct FavoriteResponse {
    pub meme_name: String,
    pub is_favorite: bool,
    pub message: String,
}

/// The answer of the favourites listing.
pub struct FavoritesResponse {
    pub favorites: Vec<String>,
    pub count: usize,
}

/// What reading a text as a JSON array of strings gives, or `None` where the
/// text is no such array.
pub uninterp spec fn json_names_of(text: Seq<char>) -> Option<Seq<Seq<char>>>;

/// What writing a list of strings as pretty-printed JSON gives.
pub uninterp spec fn pretty_json_of(names: Seq<Seq<char>>) -> Seq<char>;

/// The texts of a list of names.
pub open spec fn texts(v: Seq<String>) -> Seq<Seq<char>> {
    v.map_values(|s: String| s@)
}

/// Relies on `serde_json::from_str::<Vec<String>>`: `Ok` with the strings of
/// the array exactly when the text is a JSON array of strings.
#[verifier::external_body]
fn parse_names(text: &str) -> (r: Option<Vec<String>>)
    ensures
        match r {
            Some(v) => json_names_of(text@) == Some(texts(v@)),
            None => json_names_of(text@) is None,
        },
{
    serde_json::from_str::<Vec<String>>(text).ok()
}

/// Relies on `serde_json::to_string_pretty` on a `Vec<String>`: the text
/// depends on the strings alone, and it succeeds, since it fails only where a
/// `Serialize` impl fails or a map has keys that are not strings, and a list
/// of strings has neither.
#[verifier::external_body]
fn render_names(names: &Vec<String>) -> (r: Option<String>)
    ensures
        r is Some,
        r matches Some(t) ==> t@ == pretty_json_of(texts(names@)),
{
    serde_json::to_string_pretty(names).ok()
}

/// Holds of every text but `name`.
pub open spec fn other_than(name: Seq<char>) -> spec_fn(Seq<char>) -> bool {
    |x: Seq<char>| x != name
}

/// The list after toggling `name`: every copy of it removed if it was
/// there, else appended at the end.
pub open spec fn toggled(f: Seq<Seq<char>>, name: Seq<char>) -> Seq<Seq<char>> {
    if f.contains(name) {
        f.filter(other_than(name))
    } else {
        f.push(name)
    }
}

/// The list read from the stored text: empty when there is no text or it is
/// not a JSON array of strings.
pub open spec fn loaded(stored: Option<Seq<char>>) -> Seq<Seq<char>> {
    match stored {
        Some(t) => match json_names_of(t) {
            Some(v) => v,
            None => Seq::empty(),
        },
        None => Seq::empty(),
    }
}

/// Reads the favourites from the stored text, if any: a missing file, an
/// unreadable one and a malformed one all read as the empty list.
pub fn load_favorites(stored: Option<String>) -> (r: Vec<String>)
    ensures
        texts(r@) == loaded(
            match stored {
                Some(t) => Some(t@),
                None => None,
            },
        ),
{
    match stored {
        Some(t) => match parse_names(t.as_str()) {
            Some(v) => v,
            None => Vec::new(),
        },
        None => Vec::new(),
    }
}

/// The text to store for a list of favourites: the list as pretty-printed
/// JSON, which overwrites the stored file whole.
pub fn store_favorites(favorites: &Vec<String>) -> (r: String)
    ensures
        r@ == pretty_json_of(texts(favorites@)),
{
    match render_names(favorites) {
        Some(t) => t,
        None => String::new(),
    }
}

/// Whether `name` is among the favourites.
pub fn is_favorite(favorites: &Vec<String>, name: &String) -> (r: bool)
    ensures
        r == texts(favorites@).contains(name@),
{
    let mut i: usize = 0;
    while i < favorites.len()
        invariant
            i <= favorites.len(),
            forall|k: int| 0 <= k < i ==> favorites@[k]@ != name@,
        decreases favorites.len() - i,
    {
        if favorites[i] == *name {
            assert(texts(favorites@)[i as int] == name@);
            return true;
        }
        i = i + 1;
    }
    assert(!texts(favorites@).contains(name@)) by {
        if texts(favorites@).contains(name@) {
            let k = choose|k: int| 0 <= k < texts(favorites@).len() && texts(favorites@)[k] == name@;
            assert(favorites@[k]@ == name@);
        }
    }
    false
}

/// The favourites with every copy of `name` taken out.
pub fn without(favorites: &Vec<String>, name: &String) -> (r: Vec<String>)
    ensures
        texts(r@) == texts(favorites@).filter(other_than(name@)),
{
    let ghost keep = other_than(name@);
    let mut r: Vec<String> = Vec::new();
    let mut i: usize = 0;
    while i < favorites.len()
        invariant
            i <= favorites.len(),
            keep == (other_than(name@)),
            texts(r@) == texts(favorites@.subrange(0, i as int)).filter(keep),
        decreases favorites.len() - i,
    {
        let ghost before = texts(favorites@.subrange(0, i as int));
        assert(texts(favorites@.subrange(0, i + 1)) =~= before.push(favorites@[i as int]@));
        proof {
            before.lemma_filter_push(favorites@[i as int]@, keep);
        }
        if favorites[i] != *name {
            r.push(favorites[i].clone());
            assert(texts(r@) =~= texts(r@.drop_last()).push(favorites@[i as int]@));
        }
        i = i + 1;
    }
    assert(favorites@.subrange(0, favorites.len() as int) =~= favorites@);
    r
}

/// Toggles `req.meme_name` in the favourites: a name that is not safe to
/// join to the memes directory is refused and the list left as it was;
/// otherwise every copy is removed if it was there, else it is appended, and
/// the answer says whether it is a favourite now.
pub fn toggle_favorite(favorites: &mut Vec<String>, req: &FavoriteRequest) -> (r: Result<
    FavoriteResponse,
    MemeError,
>)
    ensures
        is_safe_name(req.meme_name@) ==> r is Ok,
        !is_safe_name(req.meme_name@) ==> r == Err::<FavoriteResponse, MemeError>(
            MemeError::InvalidName,
        ) && final(favorites)@ == old(favorites)@,
        r is Ok ==> texts(final(favorites)@) == toggled(texts(old(favorites)@), req.meme_name@),
        r matches Ok(a) ==> a.meme_name@ == req.meme_name@ && a.is_favorite == texts(
            final(favorites)@,
        ).contains(req.meme_name@) && a.message@ == if a.is_favorite {
            "Added to favorites"@
        } else {
            "Removed from favorites"@
        },
{
    if check_meme_name(req.meme_name.as_str()).is_err() {
        return Err(MemeError::InvalidName);
    }
    let name = &req.meme_name;
    let ghost f = texts(favorites@);
    let was = is_favorite(favorites, name);
    if was {
        let kept = without(favorites, name);
        *favorites = kept;
    } else {
        favorites.push(name.clone());
        assert(texts(favorites@) =~= f.push(name@));
    }
    proof {
        lemma_toggled_membership(f, name@);
    }
    let message = if was {
        String::from_str("Removed from favorites")
    } else {
        String::from_str("Added to favorites")
    };
    Ok(FavoriteResponse { meme_name: name.clone(), is_favorite: !was, message })
}

/// The answer of the favourites listing: the list and its length.
pub fn get_favorites(favorites: Vec<String>) -> (r: FavoritesResponse)
    ensures
        r.favorites@ == favorites@,
        r.count == favorites.len(),
{
    let count = favorites.len();
    FavoritesResponse { favorites, count }
}

/// Taking out a name that no element equals leaves a list as it was.
pub proof fn lemma_filter_absent(f: Seq<Seq<char>>, name: Seq<char>)
    requires
        !f.contains(name),
    ensures
        f.filter(other_than(name)) == f,
    decreases f.len(),
{
    if f.len() > 0 {
        let init = f.drop_last();
        assert(init.push(f.last()) =~= f);
        assert(!init.contains(name)) by {
            if init.contains(name) {
                let k = choose|k: int| 0 <= k < init.len() && init[k] == name;
                assert(f[k] == name);
            }
        }
        lemma_filter_absent(init, name);
        init.lemma_filter_push(f.last(), other_than(name));
        assert(f.last() != name) by {
            assert(f[f.len() - 1] == f.last());
        }
    }
}

/// After a toggle, a name is in the list exactly when it was not before.
pub proof fn lemma_toggled_membership(f: Seq<Seq<char>>, name: Seq<char>)
    ensures
        toggled(f, name).contains(name) == !f.contains(name),
{
    if f.contains(name) {
        let g = f.filter(other_than(name));
        if g.contains(name) {
            let k = choose|k: int| 0 <= k < g.len() && g[k] == name;
            f.lemma_filter_pred(other_than(name), k);
        }
    } else {
        assert(f.push(name)[f.len() as int] == name);
    }
}

/// Toggling the same name twice restores whether it is a favourite; when it
/// was not one, the list itself comes back unchanged.
pub proof fn lemma_toggle_twice(f: Seq<Seq<char>>, name: Seq<char>)
    ensures
        toggled(toggled(f, name), name).contains(name) == f.contains(name),
        !f.contains(name) ==> toggled(toggled(f, name), name) == f,
{
    lemma_toggled_membership(f, name);
    lemma_toggled_membership(toggled(f, name), name);
    if !f.contains(name) {
        let g = f.push(name);
        assert(g.contains(name));
        assert(toggled(g, name) == g.filter(other_than(name)));
        f.lemma_filter_push(name, other_than(name));
        assert(g.filter(other_than(name)) == f.filter(other_than(name)));
        lemma_filter_absent(f, name);
    }
}

} // verus!
