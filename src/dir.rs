use vstd::prelude::*;
use vstd::string::*;

use crate::config::Config;
use crate::pathbuf::{join, CustomPathBuf};
use crate::sort::{name_group, name_key, sort_by_name, stable_sorted};
use crate::text::{child_path, contains_string, join_child, opt_view, str_eq, views};
use crate::thumb::{
    cache_dir, candidates, ext_of, extension_of, file_path_to_thumb, folder_thumb_path,
    has_file_name, random_folder_thumb, thumb_path_of,
};

verus! {

/// One file or folder of a listing.
#[derive(Debug)]
pub struct DirEntry {
    /// The base name.
    pub name: String,
    /// The path relative to the served root.
    pub path: String,
    /// The length in bytes, 0 when unknown.
    pub size: u64,
    /// The modification time in unix seconds, 0 when unknown.
    pub date: u64,
    /// The modification day as `YYYY-MM-DD`, empty when unknown.
    pub date_string: String,
    /// The root-relative path of the preview image, when one exists.
    pub thumb: Option<String>,
    /// The extension of the name, when it has one.
    pub ext: Option<String>,
}

impl DirEntry {
    /// An entry with every field empty or zero.
    pub fn new() -> (r: Self)
        ensures
            r.name@ == Seq::<char>::empty(),
            r.path@ == Seq::<char>::empty(),
            r.size == 0,
            r.date == 0,
            r.date_string@ == Seq::<char>::empty(),
            r.thumb is None,
            r.ext is None,
    {
        DirEntry {
            name: String::new(),
            path: String::new(),
            size: 0,
            date: 0,
            date_string: String::new(),
            thumb: None,
            ext: None,
        }
    }
}

/// Why a request found no listing.
#[derive(Debug, Clone, Copy, PartialEq, Eq, Structural)]
pub enum DirError {
    /// The path does not exist, or is not a directory.
    NotFound,
    /// The filesystem refused to list the directory.
    IOError,
}

/// What the filesystem reported of one child of a directory.
#[derive(Debug)]
pub struct RawEntry {
    /// The base name.
    pub name: String,
    /// Whether it is a directory.
    pub is_dir: bool,
    /// The length in bytes, 0 when unknown.
    pub size: u64,
    /// The modification time in unix seconds, when known.
    pub modified: Option<u64>,
    /// For a directory, the names in its own `.th` cache (empty when it has none).
    pub cache_names: Vec<String>,
}

/// What the filesystem reported of a directory: its children, and the names in
/// its `.th` cache (empty when it has none).
#[derive(Debug)]
pub struct DirScan {
    pub entries: Vec<RawEntry>,
    pub cache_names: Vec<String>,
}

/// What a requested path turned out to be on the filesystem.
#[derive(Debug)]
pub enum PathTarget {
    /// Nothing exists there.
    Missing,
    /// A regular file.
    File,
    /// A directory, with what was read of it.
    Directory(DirScan),
    /// A directory that could not be listed.
    Unreadable,
}

/// The listing of one directory.
#[derive(Debug)]
pub struct Dir {
    /// The root-relative path of the directory, empty for the root.
    pub title: String,
    /// The URL prefix from the configuration.
    pub base_path: String,
    /// The read-only flag from the configuration.
    pub read_only: bool,
    /// The files, ordered by name.
    pub files: Vec<DirEntry>,
    /// The folders, ordered by name.
    pub folders: Vec<DirEntry>,
}

impl Dir {
    /// The empty listing of the root under configuration `cfg`.
    pub fn new(cfg: &Config) -> (r: Self)
        ensures
            r.title@ == Seq::<char>::empty(),
            r.base_path@ == cfg.basepath@,
            r.read_only == cfg.read_only,
            r.files@.len() == 0,
            r.folders@.len() == 0,
    {
        Dir {
            title: String::new(),
            base_path: cfg.basepath.clone(),
            read_only: cfg.read_only,
            files: Vec::new(),
            folders: Vec::new(),
        }
    }
}

/// The answer to a request: a file to send as it is, or a listing.
#[derive(Debug)]
pub enum Response {
    /// The root-relative path of a regular file.
    File(String),
    /// The listing of a directory.
    Listing(Dir),
}

/// What chrono's "%Y-%m-%d" formatting gives for a unix time in UTC, if chrono can
/// represent it.
pub uninterp spec fn utc_day_of(secs: i64) -> Option<Seq<char>>;

/// Relies on chrono's DateTime::from_timestamp (None out of its range) and its
/// "%Y-%m-%d" formatting: the day of a unix time in UTC, a function of the time alone,
/// whose text always holds the year's digits.
#[verifier::external_body]
fn utc_day(secs: i64) -> (r: Option<String>)
    ensures
        opt_view(r) == utc_day_of(secs),
        r is Some ==> r->Some_0@.len() > 0,
{
    match chrono::DateTime::from_timestamp(secs, 0) {
        Some(t) => Some(t.format("%Y-%m-%d").to_string()),
        None => None,
    }
}

/// The date text of an entry modified at `date`: empty when the time is unknown (0)
/// or cannot be shown.
pub open spec fn date_text(date: u64) -> Seq<char> {
    if date == 0 || date > i64::MAX as u64 {
        Seq::empty()
    } else {
        match utc_day_of(date as i64) {
            Some(s) => s,
            None => Seq::empty(),
        }
    }
}

/// The day, as `YYYY-MM-DD` in UTC, of a modification time in unix seconds; empty
/// for an unknown (0) time, and for a time too far off to show.
pub fn date_string_of(date: u64) -> (r: String)
    ensures
        r@ == date_text(date),
        r@.len() == 0 <==> (date == 0 || date > i64::MAX as u64 || utc_day_of(date as i64) is None),
{
    if date == 0 || date > i64::MAX as u64 {
        String::new()
    } else {
        match utc_day(date as i64) {
            Some(s) => s,
            None => String::new(),
        }
    }
}

/// A child that the listing shows: anything but the directory's own cache.
pub open spec fn is_listed(r: RawEntry) -> bool {
    r.name@ != cache_dir()
}

/// The children listed as files, in the order they were read.
pub open spec fn file_raws(s: Seq<RawEntry>) -> Seq<RawEntry> {
    s.filter(|r: RawEntry| is_listed(r) && !r.is_dir)
}

/// The children listed as folders, in the order they were read.
pub open spec fn folder_raws(s: Seq<RawEntry>) -> Seq<RawEntry> {
    s.filter(|r: RawEntry| is_listed(r) && r.is_dir)
}

/// The fields of `e` that follow from the child `r` of directory `dir` alone.
pub open spec fn entry_fields(e: DirEntry, r: RawEntry, dir: Seq<char>) -> bool {
    let date = match r.modified {
        Some(t) => t,
        None => 0,
    };
    &&& e.name@ == r.name@
    &&& e.path@ == child_path(dir, r.name@)
    &&& e.size == r.size
    &&& e.date == date
    &&& e.date_string@ == date_text(date)
    &&& opt_view(e.ext) == ext_of(r.name@)
}

/// The preview of file `name` at `path`: its path in the cache, if the cache of its
/// directory (`cache`) holds `<name>.<format>`.
pub open spec fn file_thumb(
    path: Seq<char>,
    name: Seq<char>,
    cache: Seq<Seq<char>>,
    format: Seq<char>,
) -> Option<Seq<char>> {
    if has_file_name(path) && cache.contains(name + seq!['.'] + format) {
        Some(thumb_path_of(path, format))
    } else {
        None
    }
}

/// A preview of folder `path` is one of the previews in `format` in its cache, and
/// there is one whenever the cache holds any.
pub open spec fn folder_thumb_ok(
    t: Option<Seq<char>>,
    path: Seq<char>,
    cache: Seq<Seq<char>>,
    format: Seq<char>,
) -> bool {
    let c = candidates(cache, format);
    &&& t is None <==> c.len() == 0
    &&& t matches Some(p) ==> exists|j: int|
        0 <= j < c.len() && p == folder_thumb_path(path, #[trigger] c[j])
}

/// `e` is the entry of file `r` in directory `dir`, whose cache holds `dir_cache`.
pub open spec fn file_entry_ok(
    e: DirEntry,
    r: RawEntry,
    dir: Seq<char>,
    dir_cache: Seq<Seq<char>>,
    cfg: Config,
) -> bool {
    &&& entry_fields(e, r, dir)
    &&& opt_view(e.thumb) == if cfg.no_thumbs {
        None
    } else {
        file_thumb(child_path(dir, r.name@), r.name@, dir_cache, cfg.format@)
    }
}

/// `e` is the entry of folder `r` in directory `dir`.
pub open spec fn folder_entry_ok(e: DirEntry, r: RawEntry, dir: Seq<char>, cfg: Config) -> bool {
    &&& entry_fields(e, r, dir)
    &&& if cfg.no_thumbs {
        e.thumb is None
    } else {
        folder_thumb_ok(
            opt_view(e.thumb),
            child_path(dir, r.name@),
            views(r.cache_names@),
            cfg.format@,
        )
    }
}

/// `d` lists directory `dir` as `scan` reports it: every child but the cache, as
/// files and folders, each group sorted by name, ignoring case, ties in the order
/// read.
pub open spec fn listing_ok(d: Dir, cfg: Config, dir: Seq<Seq<char>>, scan: DirScan) -> bool {
    let title = join(dir);
    let fr = file_raws(scan.entries@);
    let dr = folder_raws(scan.entries@);
    &&& d.title@ == title
    &&& d.base_path@ == cfg.basepath@
    &&& d.read_only == cfg.read_only
    &&& exists|u: Seq<DirEntry>|
        #![trigger stable_sorted(d.files@, u)]
        u.len() == fr.len() && stable_sorted(d.files@, u) && forall|i: int|
            0 <= i < u.len() ==> file_entry_ok(
                #[trigger] u[i],
                fr[i],
                title,
                views(scan.cache_names@),
                cfg,
            )
    &&& exists|u: Seq<DirEntry>|
        #![trigger stable_sorted(d.folders@, u)]
        u.len() == dr.len() && stable_sorted(d.folders@, u) && forall|i: int|
            0 <= i < u.len() ==> folder_entry_ok(#[trigger] u[i], dr[i], title, cfg)
}

/// An entry of a stably sorted sequence comes from the sequence it was sorted from.
proof fn lemma_sorted_member(out: Seq<DirEntry>, u: Seq<DirEntry>, i: int)
    requires
        stable_sorted(out, u),
        0 <= i < out.len(),
    ensures
        u.contains(out[i]),
{
    let k = name_key(out[i]);
    let p = |e: DirEntry| name_key(e) == k;
    out.lemma_filter_contains(p, i);
    assert(name_group(out, k) == name_group(u, k));
    u.lemma_filter_contains_rev(p, out[i]);
}

/// The cache directory is never listed: no file and no folder of a listing is
/// named `.th`.
pub proof fn lemma_cache_never_listed(d: Dir, cfg: Config, dir: Seq<Seq<char>>, scan: DirScan)
    requires
        listing_ok(d, cfg, dir, scan),
    ensures
        forall|i: int| 0 <= i < d.files@.len() ==> (#[trigger] d.files@[i]).name@ != cache_dir(),
        forall|i: int|
            0 <= i < d.folders@.len() ==> (#[trigger] d.folders@[i]).name@ != cache_dir(),
{
    let title = join(dir);
    let fpred = |r: RawEntry| is_listed(r) && !r.is_dir;
    let dpred = |r: RawEntry| is_listed(r) && r.is_dir;
    let fr = file_raws(scan.entries@);
    let dr = folder_raws(scan.entries@);
    let fu = choose|u: Seq<DirEntry>|
        #![trigger stable_sorted(d.files@, u)]
        u.len() == fr.len() && stable_sorted(d.files@, u) && forall|i: int|
            0 <= i < u.len() ==> file_entry_ok(
                #[trigger] u[i],
                fr[i],
                title,
                views(scan.cache_names@),
                cfg,
            );
    let du = choose|u: Seq<DirEntry>|
        #![trigger stable_sorted(d.folders@, u)]
        u.len() == dr.len() && stable_sorted(d.folders@, u) && forall|i: int|
            0 <= i < u.len() ==> folder_entry_ok(#[trigger] u[i], dr[i], title, cfg);
    assert forall|i: int| 0 <= i < d.files@.len() implies (#[trigger] d.files@[i]).name@
        != cache_dir() by {
        lemma_sorted_member(d.files@, fu, i);
        let j = choose|j: int| 0 <= j < fu.len() && fu[j] == d.files@[i];
        assert(file_entry_ok(fu[j], fr[j], title, views(scan.cache_names@), cfg));
        scan.entries@.lemma_filter_pred(fpred, j);
    }
    assert forall|i: int| 0 <= i < d.folders@.len() implies (#[trigger] d.folders@[i]).name@
        != cache_dir() by {
        lemma_sorted_member(d.folders@, du, i);
        let j = choose|j: int| 0 <= j < du.len() && du[j] == d.folders@[i];
        assert(folder_entry_ok(du[j], dr[j], title, cfg));
        scan.entries@.lemma_filter_pred(dpred, j);
    }
}

/// A directory whose only children are its own cache is listed with no files and
/// no folders.
pub proof fn lemma_only_cache_lists_nothing(d: Dir, cfg: Config, dir: Seq<Seq<char>>, scan: DirScan)
    requires
        listing_ok(d, cfg, dir, scan),
        forall|i: int|
            0 <= i < scan.entries@.len() ==> (#[trigger] scan.entries@[i]).name@ == cache_dir(),
    ensures
        d.files@.len() == 0,
        d.folders@.len() == 0,
{
    let fpred = |r: RawEntry| is_listed(r) && !r.is_dir;
    let dpred = |r: RawEntry| is_listed(r) && r.is_dir;
    assert(scan.entries@.all(|x: RawEntry| !fpred(x)));
    assert(scan.entries@.all(|x: RawEntry| !dpred(x)));
    scan.entries@.lemma_all_neg_filter_empty(fpred);
    scan.entries@.lemma_all_neg_filter_empty(dpred);
}

/// The preview of a file, as `file_thumb` says.
fn resolve_file_thumb(path: &str, name: &str, cache: &Vec<String>, format: &str) -> (r: Option<
    String,
>)
    ensures
        opt_view(r) == file_thumb(path@, name@, views(cache@), format@),
{
    match file_path_to_thumb(path, format) {
        Err(_) => None,
        Ok(t) => {
            let mut wanted = String::from_str(name);
            proof {
                reveal_strlit(".");
            }
            wanted.append(".");
            wanted.append(format);
            assert(wanted@ =~= name@ + seq!['.'] + format@);
            if contains_string(cache, &wanted) {
                Some(t)
            } else {
                None
            }
        },
    }
}

/// The entry of child `r` of the directory at `dir`, whose cache holds `dir_cache`.
fn make_entry(cfg: &Config, dir: &str, r: &RawEntry, dir_cache: &Vec<String>) -> (e: DirEntry)
    ensures
        r.is_dir ==> folder_entry_ok(e, *r, dir@, *cfg),
        !r.is_dir ==> file_entry_ok(e, *r, dir@, views(dir_cache@), *cfg),
{
    let path = join_child(dir, r.name.as_str());
    let date: u64 = match r.modified {
        Some(t) => t,
        None => 0,
    };
    let thumb = if cfg.no_thumbs {
        None
    } else if r.is_dir {
        random_folder_thumb(path.as_str(), &r.cache_names, cfg.format.as_str())
    } else {
        resolve_file_thumb(path.as_str(), r.name.as_str(), dir_cache, cfg.format.as_str())
    };
    DirEntry {
        name: r.name.clone(),
        path,
        size: r.size,
        date,
        date_string: date_string_of(date),
        thumb,
        ext: extension_of(r.name.as_str()),
    }
}

/// Assembles the listing of directory `dir` from what `scan` reports of it.
fn list_dir(cfg: &Config, dir: &CustomPathBuf, scan: &DirScan) -> (d: Dir)
    ensures
        listing_ok(d, *cfg, dir@, *scan),
{
    let title = dir.path();
    let ghost raws = scan.entries@;
    let ghost fpred = |r: RawEntry| is_listed(r) && !r.is_dir;
    let ghost dpred = |r: RawEntry| is_listed(r) && r.is_dir;
    let mut files: Vec<DirEntry> = Vec::new();
    let mut folders: Vec<DirEntry> = Vec::new();
    let n = scan.entries.len();
    let mut i: usize = 0;
    proof {
        reveal_strlit(".th");
        assert(".th"@ =~= cache_dir());
    }
    while i < n
        invariant
            n == raws.len(),
            raws == scan.entries@,
            i <= n,
            title@ == join(dir@),
            ".th"@ == cache_dir(),
            fpred == (|r: RawEntry| is_listed(r) && !r.is_dir),
            dpred == (|r: RawEntry| is_listed(r) && r.is_dir),
            files@.len() == raws.subrange(0, i as int).filter(fpred).len(),
            folders@.len() == raws.subrange(0, i as int).filter(dpred).len(),
            forall|j: int|
                0 <= j < files@.len() ==> file_entry_ok(
                    #[trigger] files@[j],
                    raws.subrange(0, i as int).filter(fpred)[j],
                    title@,
                    views(scan.cache_names@),
                    *cfg,
                ),
            forall|j: int|
                0 <= j < folders@.len() ==> folder_entry_ok(
                    #[trigger] folders@[j],
                    raws.subrange(0, i as int).filter(dpred)[j],
                    title@,
                    *cfg,
                ),
        decreases n - i,
    {
        let r = &scan.entries[i];
        let ghost pre = raws.subrange(0, i as int);
        proof {
            assert(raws.subrange(0, i + 1) =~= pre.push(*r));
            pre.lemma_filter_push(*r, fpred);
            pre.lemma_filter_push(*r, dpred);
        }
        if !str_eq(r.name.as_str(), ".th") {
            let e = make_entry(cfg, title.as_str(), r, &scan.cache_names);
            if r.is_dir {
                folders.push(e);
            } else {
                files.push(e);
            }
        }
        i = i + 1;
    }
    assert(raws.subrange(0, n as int) =~= raws);
    let ghost fu = files@;
    let ghost du = folders@;
    sort_by_name(&mut files);
    sort_by_name(&mut folders);
    let mut d = Dir::new(cfg);
    d.title = title;
    d.files = files;
    d.folders = folders;
    assert(stable_sorted(d.files@, fu));
    assert(stable_sorted(d.folders@, du));
    d
}

/// The listing of directory `dir`, given what the filesystem reported there: a
/// path that is missing or is not a directory gives `NotFound`, a directory that
/// could not be listed gives `IOError`.
pub fn get_dir(cfg: &Config, dir: &CustomPathBuf, target: &PathTarget) -> (r: Result<Dir, DirError>)
    ensures
        match target {
            PathTarget::Missing => r == Err::<Dir, DirError>(DirError::NotFound),
            PathTarget::File => r == Err::<Dir, DirError>(DirError::NotFound),
            PathTarget::Unreadable => r == Err::<Dir, DirError>(DirError::IOError),
            PathTarget::Directory(scan) => r matches Ok(d) && listing_ok(d, *cfg, dir@, *scan),
        },
{
    match target {
        PathTarget::Missing => Err(DirError::NotFound),
        PathTarget::File => Err(DirError::NotFound),
        PathTarget::Unreadable => Err(DirError::IOError),
        PathTarget::Directory(scan) => Ok(list_dir(cfg, dir, scan)),
    }
}

/// Answers a request for `path`, given what the filesystem reported there: a
/// regular file is sent as it is, never listed; a directory is listed; a missing
/// path gives `NotFound` and an unreadable directory `IOError`.
pub fn route(cfg: &Config, path: &CustomPathBuf, target: &PathTarget) -> (r: Result<
    Response,
    DirError,
>)
    ensures
        match target {
            PathTarget::File => r matches Ok(Response::File(p)) && p@ == join(path@),
            PathTarget::Missing => r == Err::<Response, DirError>(DirError::NotFound),
            PathTarget::Unreadable => r == Err::<Response, DirError>(DirError::IOError),
            PathTarget::Directory(scan) => r matches Ok(Response::Listing(d)) && listing_ok(
                d,
                *cfg,
                path@,
                *scan,
            ),
        },
{
    match target {
        PathTarget::File => Ok(Response::File(path.path())),
        _ => match get_dir(cfg, path, target) {
            Ok(d) => Ok(Response::Listing(d)),
            Err(e) => Err(e),
        },
    }
}

} // verus!
