use hview::dir::date_string_of;
use hview::sort::{sort_by_keys, sort_by_name};
use hview::{get_dir, route, Config, CustomPathBuf, DirEntry, DirError, DirScan, PathTarget, RawEntry, Response};

fn config(no_thumbs: bool) -> Config {
    Config {
        dir: String::from("./test-fixtures/"),
        basepath: String::from("/"),
        host: String::from("127.0.0.1"),
        port: 8000,
        verbose: false,
        format: String::from("avif"),
        read_only: true,
        no_thumbs,
    }
}

fn names(list: &[&str]) -> Vec<String> {
    list.iter().map(|s| s.to_string()).collect()
}

fn file(name: &str, size: u64, modified: Option<u64>) -> RawEntry {
    RawEntry { name: name.to_string(), is_dir: false, size, modified, cache_names: Vec::new() }
}

fn folder(name: &str, cache: &[&str]) -> RawEntry {
    RawEntry { name: name.to_string(), is_dir: true, size: 4096, modified: None, cache_names: names(cache) }
}

fn named(n: &str) -> DirEntry {
    let mut e = DirEntry::new();
    e.name = n.to_string();
    e
}

fn entry_names(v: &[DirEntry]) -> Vec<String> {
    v.iter().map(|e| e.name.clone()).collect()
}

#[test]
fn sorted_ignoring_case() {
    let mut v = vec![named("c.txt"), named("B.txt"), named("a.txt")];
    sort_by_name(&mut v);
    assert_eq!(entry_names(&v), names(&["a.txt", "B.txt", "c.txt"]));
}

#[test]
fn sorted_by_given_keys() {
    let mut v = vec![named("a.txt"), named("B.txt"), named("c.txt")];
    let mut keys = names(&["c", "a", "b"]);
    sort_by_keys(&mut v, &mut keys);
    assert_eq!(entry_names(&v), names(&["B.txt", "c.txt", "a.txt"]));
    assert_eq!(keys, names(&["a", "b", "c"]));

    let mut v = vec![named("c.txt"), named("B.txt"), named("a.txt")];
    let mut keys = names(&["c.txt", "b.txt", "a.txt"]);
    sort_by_keys(&mut v, &mut keys);
    assert_eq!(entry_names(&v), names(&["a.txt", "B.txt", "c.txt"]));
}

#[test]
fn sort_by_keys_is_stable() {
    let mut v = vec![named("x1"), named("y"), named("x2"), named("x3")];
    let mut keys = names(&["k", "a", "k", "k"]);
    sort_by_keys(&mut v, &mut keys);
    assert_eq!(entry_names(&v), names(&["y", "x1", "x2", "x3"]));
    assert_eq!(keys, names(&["a", "k", "k", "k"]));
    let mut empty: Vec<DirEntry> = Vec::new();
    let mut no_keys: Vec<String> = Vec::new();
    sort_by_keys(&mut empty, &mut no_keys);
    assert!(empty.is_empty() && no_keys.is_empty());
}

#[test]
fn sort_keeps_order_of_equal_keys() {
    let mut v = vec![named("b"), named("A"), named("c"), named("a")];
    v[1].size = 1;
    v[3].size = 2;
    sort_by_name(&mut v);
    assert_eq!(entry_names(&v), names(&["A", "a", "b", "c"]));
    assert_eq!(v[0].size, 1);
    assert_eq!(v[1].size, 2);
    let mut empty: Vec<DirEntry> = Vec::new();
    sort_by_name(&mut empty);
    assert!(empty.is_empty());
}

#[test]
fn only_cache_child_lists_nothing() {
    let scan = DirScan { entries: vec![folder(".th", &[])], cache_names: names(&["x.avif"]) };
    let d = get_dir(&config(false), &CustomPathBuf::from("imgs"), &PathTarget::Directory(scan)).unwrap();
    assert!(d.files.is_empty());
    assert!(d.folders.is_empty());
    assert_eq!(d.title, "imgs");
}

#[test]
fn listing_of_a_directory() {
    let scan = DirScan {
        entries: vec![
            file("b.jpg", 10, Some(1431648000)),
            folder("Sub", &["p1.avif"]),
            file("A.png", 20, None),
            folder(".th", &[]),
            folder("empty", &[]),
            file("notes", 0, Some(0)),
        ],
        cache_names: names(&["b.jpg.avif", "notes.jpg.avif"]),
    };
    let d = get_dir(&config(false), &CustomPathBuf::from("imgs"), &PathTarget::Directory(scan)).unwrap();
    assert_eq!(d.title, "imgs");
    assert_eq!(d.base_path, "/");
    assert!(d.read_only);
    assert_eq!(entry_names(&d.files), names(&["A.png", "b.jpg", "notes"]));
    assert_eq!(entry_names(&d.folders), names(&["empty", "Sub"]));

    let a = &d.files[0];
    assert_eq!(a.path, "imgs/A.png");
    assert_eq!(a.size, 20);
    assert_eq!(a.date, 0);
    assert_eq!(a.date_string, "");
    assert_eq!(a.thumb, None);
    assert_eq!(a.ext, Some(String::from("png")));

    let b = &d.files[1];
    assert_eq!(b.path, "imgs/b.jpg");
    assert_eq!(b.date, 1431648000);
    assert_eq!(b.date_string, "2015-05-15");
    assert_eq!(b.thumb, Some(String::from("imgs/.th/b.jpg.avif")));
    assert_eq!(b.ext, Some(String::from("jpg")));

    let n = &d.files[2];
    assert_eq!(n.thumb, None);
    assert_eq!(n.ext, None);

    assert_eq!(d.folders[0].thumb, None);
    assert_eq!(d.folders[1].path, "imgs/Sub");
    assert_eq!(d.folders[1].thumb, Some(String::from("imgs/Sub/.th/p1.avif")));
}

#[test]
fn listing_of_root_without_thumbs() {
    let scan = DirScan {
        entries: vec![file("b.jpg", 1, None), folder("sub", &["p1.avif"])],
        cache_names: names(&["b.jpg.avif"]),
    };
    let d = get_dir(&config(true), &CustomPathBuf::new(), &PathTarget::Directory(scan)).unwrap();
    assert_eq!(d.title, "");
    assert_eq!(d.files[0].path, "b.jpg");
    assert_eq!(d.files[0].thumb, None);
    assert_eq!(d.folders[0].path, "sub");
    assert_eq!(d.folders[0].thumb, None);
}

#[test]
fn root_file_thumb_path() {
    let scan = DirScan { entries: vec![file("b.jpg", 1, None)], cache_names: names(&["b.jpg.avif"]) };
    let d = get_dir(&config(false), &CustomPathBuf::new(), &PathTarget::Directory(scan)).unwrap();
    assert_eq!(d.files[0].thumb, Some(String::from(".th/b.jpg.avif")));
}

#[test]
fn get_dir_errors() {
    let p = CustomPathBuf::from("x");
    assert_eq!(get_dir(&config(false), &p, &PathTarget::Missing).err(), Some(DirError::NotFound));
    assert_eq!(get_dir(&config(false), &p, &PathTarget::File).err(), Some(DirError::NotFound));
    assert_eq!(get_dir(&config(false), &p, &PathTarget::Unreadable).err(), Some(DirError::IOError));
}

#[test]
fn route_file_missing_and_directory() {
    let cfg = config(false);
    let p = CustomPathBuf::from("docs/a.txt");
    match route(&cfg, &p, &PathTarget::File) {
        Ok(Response::File(f)) => assert_eq!(f, "docs/a.txt"),
        other => panic!("expected a file, got {:?}", other),
    }
    assert_eq!(route(&cfg, &p, &PathTarget::Missing).err(), Some(DirError::NotFound));
    assert_eq!(route(&cfg, &p, &PathTarget::Unreadable).err(), Some(DirError::IOError));
    let scan = DirScan { entries: vec![file("a.txt", 3, None)], cache_names: Vec::new() };
    match route(&cfg, &CustomPathBuf::from("docs"), &PathTarget::Directory(scan)) {
        Ok(Response::Listing(d)) => assert_eq!(entry_names(&d.files), names(&["a.txt"])),
        other => panic!("expected a listing, got {:?}", other),
    }
}

#[test]
fn date_strings() {
    assert_eq!(date_string_of(0), "");
    assert_eq!(date_string_of(1431648000), "2015-05-15");
    assert_eq!(date_string_of(86399), "1970-01-01");
    assert_eq!(date_string_of(u64::MAX), "");
}

#[test]
fn empty_listing() {
    let d = hview::Dir::new(&config(false));
    assert_eq!(d.title, "");
    assert_eq!(d.base_path, "/");
    assert!(d.files.is_empty() && d.folders.is_empty());
    let e = DirEntry::new();
    assert_eq!(e.name, "");
    assert_eq!(e.thumb, None);
}
