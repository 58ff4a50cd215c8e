use imt::bundle::{entry_name, entry_path, Bundle, Path};
use imt::file::File;
use imt::header::{Header, Version};
use imt::uuid::Uuid;

fn path(segs: &[&str]) -> Path {
    Path(segs.iter().map(|s| s.to_string()).collect())
}

fn file(n: u64) -> File {
    File {
        header: Header::new(Version::new(1, 0)),
        file_id: Uuid::from_halves(0, n),
        attributes: Vec::new(),
        uses: Vec::new(),
        types: Vec::new(),
        values: Vec::new(),
    }
}

#[test]
fn path_starts_with() {
    assert!(path(&["a", "b"]).starts_with(&path(&["a"])));
    assert!(path(&["a", "b"]).starts_with(&path(&[])));
    assert!(!path(&["a"]).starts_with(&path(&["a", "b"])));
    assert!(!path(&["x", "b"]).starts_with(&path(&["a"])));
}

#[test]
fn bundle_prefixes_keys_and_export_strips_them() {
    let mut b = Bundle::create(path(&["a"]));
    b.add_file(path(&["b"]), file(1));
    assert_eq!(b.len(), 1);
    let (key, f) = b.get_index(0).unwrap();
    assert_eq!(key, &path(&["a", "b"]));
    assert_eq!(f.file_id, Uuid::from_halves(0, 1));
    assert!(b.get(&path(&["a", "b"])).is_some());
    assert!(b.get(&path(&["b"])).is_none());
    let (local, _) = b.local_entry(0).unwrap();
    assert_eq!(local, path(&["b"]));
    assert!(b.local_entry(1).is_none());
}

#[test]
fn bundle_keeps_insertion_order_and_replaces_equal_keys() {
    let mut b = Bundle::create(path(&[]));
    b.add_files(vec![(path(&["z"]), file(1)), (path(&["a"]), file(2)), (path(&["z"]), file(3))]);
    assert_eq!(b.len(), 2);
    assert_eq!(b.get_index(0).unwrap().0, &path(&["z"]));
    assert_eq!(b.get_index(0).unwrap().1.file_id, Uuid::from_halves(0, 3));
    assert_eq!(b.get_index(1).unwrap().0, &path(&["a"]));
}

#[test]
fn try_add_files_stops_at_first_error() {
    let mut b = Bundle::create(path(&["p"]));
    let r: Result<(), &str> = b.try_add_files(vec![
        Ok((path(&["one"]), file(1))),
        Err("broken"),
        Ok((path(&["two"]), file(2))),
    ]);
    assert_eq!(r, Err("broken"));
    assert_eq!(b.len(), 1);
    assert!(b.get(&path(&["p", "one"])).is_some());
    assert!(b.get(&path(&["p", "two"])).is_none());
}

#[test]
fn archive_entry_maps_to_path_and_back() {
    let p = entry_path("mod/sub.imt").unwrap();
    assert_eq!(p, path(&["mod", "sub"]));
    assert_eq!(entry_name(&p), "mod/sub.imt");
    assert_eq!(entry_name(&path(&["top"])), "top.imt");
}

#[test]
fn archive_entry_without_extension_is_skipped() {
    assert!(entry_path("readme.txt").is_none());
    assert!(entry_path("imt").is_none());
    assert!(entry_path("a/b.imt.bak").is_none());
}

#[test]
fn path_concat_and_skip() {
    let p = path(&["a", "b"]).concat(&path(&["c"]));
    assert_eq!(p, path(&["a", "b", "c"]));
    assert_eq!(p.skip(2), path(&["c"]));
}

#[test]
fn path_displays_with_double_colons() {
    assert_eq!(path(&["core", "io", "file"]).display(), "core::io::file");
    assert_eq!(path(&["one"]).display(), "one");
    assert_eq!(path(&[]).display(), "");
}
