use meme_server::{
    get_favorites, load_favorites, store_favorites, toggle_favorite, FavoriteRequest, MemeError,
};

fn req(name: &str) -> FavoriteRequest {
    FavoriteRequest { meme_name: name.to_string() }
}

#[test]
fn toggle_adds_then_removes() {
    let mut favs = vec!["a.png".to_string()];
    let r = toggle_favorite(&mut favs, &req("cat.png")).unwrap();
    assert!(r.is_favorite);
    assert_eq!(r.message, "Added to favorites");
    assert_eq!(favs, vec!["a.png".to_string(), "cat.png".to_string()]);
    let r = toggle_favorite(&mut favs, &req("cat.png")).unwrap();
    assert!(!r.is_favorite);
    assert_eq!(r.message, "Removed from favorites");
    assert_eq!(r.meme_name, "cat.png");
    assert_eq!(favs, vec!["a.png".to_string()]);
}

#[test]
fn toggle_twice_restores_membership_and_file() {
    let before = vec!["x.gif".to_string(), "y.jpg".to_string()];
    let mut favs = before.clone();
    toggle_favorite(&mut favs, &req("z.png")).unwrap();
    toggle_favorite(&mut favs, &req("z.png")).unwrap();
    assert_eq!(favs, before);
    toggle_favorite(&mut favs, &req("x.gif")).unwrap();
    let r = toggle_favorite(&mut favs, &req("x.gif")).unwrap();
    assert!(r.is_favorite);
    assert!(favs.contains(&"x.gif".to_string()));
    let text = store_favorites(&favs);
    assert_eq!(load_favorites(Some(text)), favs);
}

#[test]
fn toggle_removes_every_copy() {
    let mut favs = vec!["d.png".to_string(), "e.png".to_string(), "d.png".to_string()];
    let r = toggle_favorite(&mut favs, &req("d.png")).unwrap();
    assert!(!r.is_favorite);
    assert_eq!(favs, vec!["e.png".to_string()]);
}

#[test]
fn toggle_refuses_unsafe_names() {
    let mut favs = vec!["a.png".to_string()];
    assert_eq!(toggle_favorite(&mut favs, &req("../a.png")).err(), Some(MemeError::InvalidName));
    assert_eq!(toggle_favorite(&mut favs, &req("notes.txt")).err(), Some(MemeError::InvalidName));
    assert_eq!(favs, vec!["a.png".to_string()]);
}

#[test]
fn loading_is_lenient() {
    assert!(load_favorites(None).is_empty());
    assert!(load_favorites(Some("not json".to_string())).is_empty());
    assert!(load_favorites(Some("{\"a\": 1}".to_string())).is_empty());
    assert_eq!(
        load_favorites(Some("[\"a.png\", \"b.gif\"]".to_string())),
        vec!["a.png".to_string(), "b.gif".to_string()]
    );
}

#[test]
fn stored_text_is_pretty_json() {
    let text = store_favorites(&vec!["a.png".to_string()]);
    assert_eq!(text, "[\n  \"a.png\"\n]");
    assert_eq!(store_favorites(&Vec::new()), "[]");
}

#[test]
fn favorites_listing_counts() {
    let r = get_favorites(vec!["a.png".to_string(), "b.png".to_string()]);
    assert_eq!(r.count, 2);
    assert_eq!(r.favorites[1], "b.png");
}
