use meme_server::names::{extension_dot, image_type_of};
use meme_server::{check_meme_name, check_meme_path, check_resolved, content_type_for, ImageType, MemeError};

#[test]
fn allowed_extensions_in_any_case() {
    assert_eq!(image_type_of("a.jpg"), Some(ImageType::Jpg));
    assert_eq!(image_type_of("a.JPG"), Some(ImageType::Jpg));
    assert_eq!(image_type_of("b.JpEg"), Some(ImageType::Jpeg));
    assert_eq!(image_type_of("c.PNG"), Some(ImageType::Png));
    assert_eq!(image_type_of("d.gIf"), Some(ImageType::Gif));
    assert_eq!(image_type_of("archive.tar.png"), Some(ImageType::Png));
}

#[test]
fn other_extensions_are_excluded() {
    assert_eq!(image_type_of("notes.txt"), None);
    assert_eq!(image_type_of("image.bmp"), None);
    assert_eq!(image_type_of("image.jpgx"), None);
    assert_eq!(image_type_of("png"), None);
    assert_eq!(image_type_of(".png"), None);
    assert_eq!(image_type_of("trailing."), None);
    assert_eq!(image_type_of(""), None);
}

#[test]
fn extension_dot_positions() {
    assert_eq!(extension_dot("a.b.png"), Some(3));
    assert_eq!(extension_dot(".hidden"), None);
    assert_eq!(extension_dot("plain"), None);
    assert_eq!(extension_dot("..png"), Some(1));
}

#[test]
fn content_type_table() {
    assert_eq!(content_type_for("x.jpg"), "image/jpeg");
    assert_eq!(content_type_for("x.jpeg"), "image/jpeg");
    assert_eq!(content_type_for("x.png"), "image/png");
    assert_eq!(content_type_for("x.gif"), "image/gif");
    assert_eq!(content_type_for("x.bmp"), "image/png");
    assert_eq!(content_type_for("noext"), "image/png");
    assert_eq!(content_type_for("x.JPG"), "image/png");
}

#[test]
fn traversal_names_are_refused() {
    assert_eq!(check_meme_name("../secret.png"), Err(MemeError::InvalidName));
    assert_eq!(check_meme_name("../../etc/passwd"), Err(MemeError::InvalidName));
    assert_eq!(check_meme_name("sub/../cat.png"), Err(MemeError::InvalidName));
    assert_eq!(check_meme_name("..\\cat.png"), Err(MemeError::InvalidName));
    assert_eq!(check_meme_name(".."), Err(MemeError::InvalidName));
}

#[test]
fn plain_image_names_are_accepted() {
    assert_eq!(check_meme_name("cat.png"), Ok(ImageType::Png));
    assert_eq!(check_meme_name("Dog.JPEG"), Ok(ImageType::Jpeg));
    assert_eq!(check_meme_name("..gif"), Ok(ImageType::Gif));
    assert_eq!(check_meme_name("readme.md"), Err(MemeError::InvalidName));
}

fn parts(p: &[&str]) -> Vec<String> {
    p.iter().map(|c| c.to_string()).collect()
}

#[test]
fn resolved_path_must_lie_inside_base() {
    let base = parts(&["/", "srv", "assets", "memes"]);
    assert_eq!(check_resolved(&base, &parts(&["/", "srv", "assets", "memes", "cat.png"])), Ok(()));
    assert_eq!(
        check_resolved(&base, &parts(&["/", "srv", "assets", "secret.png"])),
        Err(MemeError::InvalidName)
    );
    assert_eq!(
        check_resolved(&base, &parts(&["/", "srv", "assets", "memes2", "cat.png"])),
        Err(MemeError::InvalidName)
    );
    assert_eq!(check_resolved(&base, &base), Err(MemeError::InvalidName));
    assert_eq!(check_resolved(&base, &parts(&["/", "tmp", "a.png"])), Err(MemeError::InvalidName));
}

#[test]
fn request_path_checks_text_then_resolution() {
    let base = parts(&["/", "srv", "memes"]);
    let inside = Some((base.clone(), parts(&["/", "srv", "memes", "cat.png"])));
    let escaping = Some((base.clone(), parts(&["/", "etc", "cat.png"])));
    assert_eq!(check_meme_path("cat.png", &inside), Ok(ImageType::Png));
    assert_eq!(check_meme_path("cat.png", &None), Ok(ImageType::Png));
    assert_eq!(check_meme_path("cat.png", &escaping), Err(MemeError::InvalidName));
    assert_eq!(check_meme_path("../cat.png", &inside), Err(MemeError::InvalidName));
    assert_eq!(check_meme_path("cat.txt", &None), Err(MemeError::InvalidName));
}
