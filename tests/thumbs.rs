use hview::file_path_to_thumb;
use hview::thumb::{extension_of, pick_folder_thumb, random_folder_thumb, thumb_candidates};
use hview::ThumbPathError;

fn names(list: &[&str]) -> Vec<String> {
    list.iter().map(|s| s.to_string()).collect()
}

fn check_file_path_to_thumb() {
    let init = "/dir/file.jpg";
    let result = Ok(String::from("/dir/.th/file.jpg.avif"));
    assert_eq!(file_path_to_thumb(init, "avif"), result, "Basic image path");

    let init = "/Pictures/Special Photos!/file@example.com/video.avi";
    let result = Ok(String::from(
        "/Pictures/Special Photos!/file@example.com/.th/video.avi.avif",
    ));
    assert_eq!(file_path_to_thumb(init, "avif"), result, "Uncommon video path");

    let init = "/home/user/Pictures/sub/../base.jpg";
    let result = Ok(String::from("/home/user/Pictures/sub/../.th/base.jpg.avif"));
    assert_eq!(file_path_to_thumb(init, "avif"), result, "Parent in path");

    let init = "/etc/config_file";
    let result = Ok(String::from("/etc/.th/config_file.avif"));
    assert_eq!(file_path_to_thumb(init, "avif"), result, "Path without file ext");
}

#[test]
fn dir_test_file_path_to_thumb() {
    check_file_path_to_thumb();
}

#[test]
fn fs_test_file_path_to_thumb() {
    check_file_path_to_thumb();
}

fn check_get_random_thumb() {
    let cache = names(&["a.jpg.avif", "b.png.avif", "c.mp4.avif"]);
    let thumb = random_folder_thumb("imgs", &cache, "avif");
    assert!(thumb.is_some());
}

#[test]
fn dir_test_get_random_thumb() {
    check_get_random_thumb();
}

#[test]
fn fs_test_get_random_thumb() {
    check_get_random_thumb();
}

#[test]
fn thumb_path_of_relative_names() {
    assert_eq!(file_path_to_thumb("a.jpg", "avif"), Ok(String::from(".th/a.jpg.avif")));
    assert_eq!(file_path_to_thumb("/a.jpg", "webp"), Ok(String::from("/.th/a.jpg.webp")));
    assert_eq!(
        file_path_to_thumb("imgs/sub/x.png", "avif"),
        Ok(String::from("imgs/sub/.th/x.png.avif"))
    );
}

#[test]
fn thumb_path_without_file_name() {
    assert_eq!(file_path_to_thumb("", "avif"), Err(ThumbPathError::NoFileName));
    assert_eq!(file_path_to_thumb("/", "avif"), Err(ThumbPathError::NoFileName));
    assert_eq!(file_path_to_thumb("/dir/..", "avif"), Err(ThumbPathError::NoFileName));
    assert_eq!(file_path_to_thumb(".", "avif"), Err(ThumbPathError::NoFileName));
    assert_eq!(file_path_to_thumb("./", "avif"), Err(ThumbPathError::NoFileName));
    assert_eq!(file_path_to_thumb("/.", "avif"), Err(ThumbPathError::NoFileName));
}

#[test]
fn thumb_path_skips_trailing_separators_and_dots() {
    assert_eq!(file_path_to_thumb("/dir/", "avif"), Ok(String::from("/.th/dir.avif")));
    assert_eq!(file_path_to_thumb("/dir/.", "avif"), Ok(String::from("/.th/dir.avif")));
    assert_eq!(file_path_to_thumb("/a/b//", "avif"), Ok(String::from("/a/.th/b.avif")));
    assert_eq!(
        file_path_to_thumb("/dir//file.jpg", "avif"),
        Ok(String::from("/dir/.th/file.jpg.avif"))
    );
    assert_eq!(file_path_to_thumb("a/./b", "avif"), Ok(String::from("a/.th/b.avif")));
    assert_eq!(file_path_to_thumb("./x", "avif"), Ok(String::from("./.th/x.avif")));
    assert_eq!(file_path_to_thumb("dir/", "avif"), Ok(String::from(".th/dir.avif")));
}

#[test]
fn extensions_of_names() {
    assert_eq!(extension_of("a.txt"), Some(String::from("txt")));
    assert_eq!(extension_of("archive.tar.gz"), Some(String::from("gz")));
    assert_eq!(extension_of("trailing."), Some(String::from("")));
    assert_eq!(extension_of(".bashrc"), None);
    assert_eq!(extension_of("README"), None);
    assert_eq!(extension_of(".."), None);
    assert_eq!(extension_of(""), None);
}

#[test]
fn candidates_keep_format_in_order() {
    let cache = names(&["p2.avif", "notes.txt", "p1.avif", ".avif", "p3.AVIF", "x.jpg.avif"]);
    assert_eq!(
        thumb_candidates(&cache, "avif"),
        names(&["p2.avif", "p1.avif", "x.jpg.avif"])
    );
    assert!(thumb_candidates(&names(&[]), "avif").is_empty());
}

#[test]
fn folder_thumb_at_index() {
    let cache = names(&["p1.avif", "skip.txt", "p2.avif"]);
    assert_eq!(
        pick_folder_thumb("imgs/sub", &cache, "avif", 0),
        Some(String::from("imgs/sub/.th/p1.avif"))
    );
    assert_eq!(
        pick_folder_thumb("imgs/sub", &cache, "avif", 1),
        Some(String::from("imgs/sub/.th/p2.avif"))
    );
    assert_eq!(pick_folder_thumb("imgs/sub", &cache, "avif", 2), None);
    assert_eq!(pick_folder_thumb("sub", &names(&["a.txt"]), "avif", 0), None);
}

#[test]
fn random_folder_thumb_draws_both_previews() {
    let cache = names(&["p1.avif", "p2.avif"]);
    let mut seen_p1 = false;
    let mut seen_p2 = false;
    for _ in 0..500 {
        let t = random_folder_thumb("sub", &cache, "avif").expect("a preview exists");
        if t == "sub/.th/p1.avif" {
            seen_p1 = true;
        } else if t == "sub/.th/p2.avif" {
            seen_p2 = true;
        } else {
            panic!("unexpected preview {}", t);
        }
    }
    assert!(seen_p1 && seen_p2);
}

#[test]
fn random_folder_thumb_none_without_previews() {
    assert_eq!(random_folder_thumb("sub", &names(&[]), "avif"), None);
    assert_eq!(random_folder_thumb("sub", &names(&["a.jpg", "b.webp"]), "avif"), None);
}
