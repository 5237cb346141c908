//! File names: extensions, the allowed image types, and the rule that keeps a
//! requested name inside the memes directory.
use vstd::prelude::*;
use crate::errors::MemeError;

verus! {

/// The image types that the service serves, keyed by normalised extension.
#[derive(Clone, Copy, Debug, PartialEq, Eq, Structural)]
pub enum ImageType {
    Jpg,
    Jpeg,
    Png,
    Gif,
}

/// Index of the last '.' among the first `n` characters of `s`, or -1.
pub open spec fn last_dot_before(s: Seq<char>, n: int) -> int
    decreases n,
{
    if n <= 0 {
        -1
    } else if s[n - 1] == '.' {
        n - 1
    } else {
        last_dot_before(s, n - 1)
    }
}

/// The last dot before `n` lies below `n`, and is a dot.
pub proof fn lemma_last_dot_bounds(s: Seq<char>, n: int)
    requires
        0 <= n <= s.len(),
    ensures
        -1 <= last_dot_before(s, n) < n,
        last_dot_before(s, n) >= 0 ==> s[last_dot_before(s, n)] == '.',
    decreases n,
{
    if n > 0 && s[n - 1] != '.' {
        lemma_last_dot_bounds(s, n - 1);
    }
}

/// The extension of a file name as a path library reads it: what follows the
/// last '.', provided that dot is not the name's first character.
pub open spec fn extension(s: Seq<char>) -> Option<Seq<char>> {
    let d = last_dot_before(s, s.len() as int);
    if d <= 0 {
        None
    } else {
        Some(s.subrange(d + 1, s.len() as int))
    }
}

/// `c` is `l` itself, or its ASCII upper-case form.
pub open spec fn folds_to(c: char, l: char) -> bool {
    c == l || ('A' <= c && c <= 'Z' && (c as u32) + 32 == l as u32)
}

/// `s` equals the lower-case word `w` when ASCII case is ignored.
pub open spec fn lowers_to(s: Seq<char>, w: Seq<char>) -> bool {
    s.len() == w.len() && forall|i: int| 0 <= i < s.len() ==> folds_to(s[i], w[i])
}

/// The image type an extension names, case-insensitively.
pub open spec fn type_of_extension(e: Seq<char>) -> Option<ImageType> {
    if lowers_to(e, seq!['j', 'p', 'g']) {
        Some(ImageType::Jpg)
    } else if lowers_to(e, seq!['j', 'p', 'e', 'g']) {
        Some(ImageType::Jpeg)
    } else if lowers_to(e, seq!['p', 'n', 'g']) {
        Some(ImageType::Png)
    } else if lowers_to(e, seq!['g', 'i', 'f']) {
        Some(ImageType::Gif)
    } else {
        None
    }
}

/// The image type of a file name, if its extension is an allowed one.
pub open spec fn image_type(name: Seq<char>) -> Option<ImageType> {
    match extension(name) {
        Some(e) => type_of_extension(e),
        None => None,
    }
}

/// The lower-case extension text of an image type.
pub open spec fn type_text(t: ImageType) -> Seq<char> {
    match t {
        ImageType::Jpg => seq!['j', 'p', 'g'],
        ImageType::Jpeg => seq!['j', 'p', 'e', 'g'],
        ImageType::Png => seq!['p', 'n', 'g'],
        ImageType::Gif => seq!['g', 'i', 'f'],
    }
}

/// Finds the last '.' of `s` that is not its first character.
pub fn extension_dot(s: &str) -> (r: Option<usize>)
    ensures
        match r {
            Some(d) => d as int == last_dot_before(s@, s@.len() as int) && 0 < d < s@.len(),
            None => last_dot_before(s@, s@.len() as int) <= 0,
        },
        r is Some ==> extension(s@) == Some(s@.subrange(r->0 + 1, s@.len() as int)),
        r is None ==> extension(s@) is None,
{
    let n = s.unicode_len();
    proof {
        lemma_last_dot_bounds(s@, n as int);
    }
    let mut i: usize = n;
    while i > 0
        invariant
            i <= n,
            n == s@.len(),
            last_dot_before(s@, n as int) == last_dot_before(s@, i as int),
        decreases i,
    {
        if s.get_char(i - 1) == '.' {
            if i - 1 == 0 {
                return None;
            }
            return Some(i - 1);
        }
        i = i - 1;
    }
    None
}

/// Whether `s` equals the lower-case word `w` when ASCII case is ignored.
pub fn eq_ignoring_ascii_case(s: &str, w: &str) -> (r: bool)
    ensures
        r == lowers_to(s@, w@),
{
    let n = s.unicode_len();
    if n != w.unicode_len() {
        return false;
    }
    let mut i: usize = 0;
    while i < n
        invariant
            i <= n,
            n == s@.len(),
            n == w@.len(),
            forall|k: int| 0 <= k < i ==> folds_to(s@[k], w@[k]),
        decreases n - i,
    {
        let c = s.get_char(i);
        let l = w.get_char(i);
        let upper = 'A' <= c && c <= 'Z';
        if !(c == l || (upper && (c as u32) + 32 == l as u32)) {
            return false;
        }
        i = i + 1;
    }
    true
}

/// The image type of an extension, matched without regard to ASCII case.
pub fn extension_type(e: &str) -> (r: Option<ImageType>)
    ensures
        r == type_of_extension(e@),
{
    proof {
        reveal_strlit("jpg");
        reveal_strlit("jpeg");
        reveal_strlit("png");
        reveal_strlit("gif");
    }
    if eq_ignoring_ascii_case(e, "jpg") {
        Some(ImageType::Jpg)
    } else if eq_ignoring_ascii_case(e, "jpeg") {
        Some(ImageType::Jpeg)
    } else if eq_ignoring_ascii_case(e, "png") {
        Some(ImageType::Png)
    } else if eq_ignoring_ascii_case(e, "gif") {
        Some(ImageType::Gif)
    } else {
        None
    }
}

/// The image type of a file name: `None` unless its extension is one of
/// jpg, jpeg, png and gif, in any case.
pub fn image_type_of(name: &str) -> (r: Option<ImageType>)
    ensures
        r == image_type(name@),
{
    let n = name.unicode_len();
    match extension_dot(name) {
        None => None,
        Some(d) => {
            let e = name.substring_char(d + 1, n);
            extension_type(e)
        },
    }
}

/// A requested name stays inside the memes directory once joined to it: it
/// is one path component (no separator of either kind), and it names an
/// allowed image type. "." and ".." have no allowed extension.
pub open spec fn is_safe_name(s: Seq<char>) -> bool {
    !s.contains('/') && !s.contains('\\') && image_type(s) is Some
}

/// A name that holds "../" anywhere is refused: it holds a separator.
pub proof fn lemma_traversal_refused(name: Seq<char>, i: int)
    requires
        0 <= i && i + 3 <= name.len(),
        name[i] == '.' && name[i + 1] == '.' && name[i + 2] == '/',
    ensures
        !is_safe_name(name),
{
    assert(name.contains('/')) by {
        assert(name[i + 2] == '/');
    }
}

/// The texts of a path's components.
pub open spec fn component_texts(v: Seq<String>) -> Seq<Seq<char>> {
    v.map_values(|c: String| c@)
}

/// The path `p` lies strictly inside `base`: the components of `base` are the
/// first components of `p`, and `p` has more.
pub open spec fn lies_inside(base: Seq<Seq<char>>, p: Seq<Seq<char>>) -> bool {
    base.len() < p.len() && forall|i: int| 0 <= i < base.len() ==> p[i] == base[i]
}

/// Checks, on resolved paths given as components, that the file a request
/// reaches lies inside the memes directory; `InvalidName` where it does not.
pub fn check_resolved(base: &Vec<String>, resolved: &Vec<String>) -> (r: Result<(), MemeError>)
    ensures
        r is Ok <==> lies_inside(component_texts(base@), component_texts(resolved@)),
        r is Err ==> r == Err::<(), MemeError>(MemeError::InvalidName),
{
    let ghost b = component_texts(base@);
    let ghost p = component_texts(resolved@);
    if base.len() >= resolved.len() {
        return Err(MemeError::InvalidName);
    }
    let mut i: usize = 0;
    while i < base.len()
        invariant
            i <= base.len() < resolved.len(),
            b == component_texts(base@),
            p == component_texts(resolved@),
            forall|k: int| 0 <= k < i ==> p[k] == b[k],
        decreases base.len() - i,
    {
        if resolved[i] != base[i] {
            assert(p[i as int] != b[i as int]);
            return Err(MemeError::InvalidName);
        }
        i = i + 1;
    }
    Ok(())
}

/// A requested name is accepted when it is safe as text and, where it
/// resolves to a file, that file lies inside the resolved memes directory.
pub open spec fn path_accepted(name: Seq<char>, resolved: Option<(Seq<String>, Seq<String>)>) -> bool {
    is_safe_name(name) && match resolved {
        Some((b, p)) => lies_inside(component_texts(b), component_texts(p)),
        None => true,
    }
}

/// Checks a requested name against both rules. `resolved` holds the resolved
/// memes directory and the resolved path of the name in it, as components,
/// where the name resolves to a file. `InvalidName` where either rule fails.
pub fn check_meme_path(name: &str, resolved: &Option<(Vec<String>, Vec<String>)>) -> (r: Result<
    ImageType,
    MemeError,
>)
    ensures
        r is Ok <==> path_accepted(
            name@,
            match resolved {
                Some((b, p)) => Some((b@, p@)),
                None => None,
            },
        ),
        r is Ok ==> Some(r->Ok_0) == image_type(name@),
        r is Err ==> r == Err::<ImageType, MemeError>(MemeError::InvalidName),
{
    let t = check_meme_name(name)?;
    match resolved {
        Some((base, target)) => {
            check_resolved(base, target)?;
        },
        None => {},
    }
    Ok(t)
}

/// Whether `s` holds the character `c`.
pub fn has_char(s: &str, c: char) -> (r: bool)
    ensures
        r == s@.contains(c),
{
    let n = s.unicode_len();
    let mut i: usize = 0;
    while i < n
        invariant
            i <= n,
            n == s@.len(),
            forall|k: int| 0 <= k < i ==> s@[k] != c,
        decreases n - i,
    {
        if s.get_char(i) == c {
            return true;
        }
        i = i + 1;
    }
    false
}

/// Checks a requested meme name: its image type exactly when the name is
/// safe to join to the memes directory, else `InvalidName`.
pub fn check_meme_name(name: &str) -> (r: Result<ImageType, MemeError>)
    ensures
        r is Ok <==> is_safe_name(name@),
        r is Ok ==> Some(r->Ok_0) == image_type(name@),
        r is Err ==> r == Err::<ImageType, MemeError>(MemeError::InvalidName),
{
    if has_char(name, '/') || has_char(name, '\\') {
        return Err(MemeError::InvalidName);
    }
    match image_type_of(name) {
        Some(t) => Ok(t),
        None => Err(MemeError::InvalidName),
    }
}

/// What follows the last '.' of a name, or the whole name if it has none.
pub open spec fn last_piece(s: Seq<char>) -> Seq<char> {
    s.subrange(last_dot_before(s, s.len() as int) + 1, s.len() as int)
}

/// The MIME type served for a file name: by its last '.'-separated piece,
/// compared exactly; anything unknown is served as PNG.
pub open spec fn content_type(name: Seq<char>) -> Seq<char> {
    let p = last_piece(name);
    if p == "jpg"@ || p == "jpeg"@ {
        "image/jpeg"@
    } else if p == "gif"@ {
        "image/gif"@
    } else {
        "image/png"@
    }
}

/// Whether two strings hold the same characters.
pub fn same_text(a: &str, b: &str) -> (r: bool)
    ensures
        r == (a@ == b@),
{
    let n = a.unicode_len();
    if n != b.unicode_len() {
        return false;
    }
    let mut i: usize = 0;
    while i < n
        invariant
            i <= n,
            n == a@.len(),
            n == b@.len(),
            forall|k: int| 0 <= k < i ==> a@[k] == b@[k],
        decreases n - i,
    {
        if a.get_char(i) != b.get_char(i) {
            return false;
        }
        i = i + 1;
    }
    assert(a@ =~= b@);
    true
}

/// The MIME type served for a file name.
pub fn content_type_for(name: &str) -> (r: String)
    ensures
        r@ == content_type(name@),
{
    let n = name.unicode_len();
    proof {
        lemma_last_dot_bounds(name@, n as int);
    }
    let mut i: usize = n;
    let mut found = false;
    while i > 0 && !found
        invariant
            i <= n,
            n == name@.len(),
            last_dot_before(name@, n as int) == last_dot_before(name@, i as int),
            found ==> i > 0 && name@[i - 1] == '.',
        decreases i + (if found { 0int } else { 1int }),
    {
        if name.get_char(i - 1) == '.' {
            found = true;
        } else {
            i = i - 1;
        }
    }
    assert(last_piece(name@) == name@.subrange(i as int, n as int));
    let p = name.substring_char(i, n);
    if same_text(p, "jpg") || same_text(p, "jpeg") {
        String::from_str("image/jpeg")
    } else if same_text(p, "gif") {
        String::from_str("image/gif")
    } else {
        String::from_str("image/png")
    }
}

} // verus!
