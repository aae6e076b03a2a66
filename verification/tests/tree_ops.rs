use std::io::Write;

use filegate::api::dir_content;
use filegate::api::file_delivery;
use filegate::api::share_delivery;
use filegate::deliver::deliver_bytes;
use filegate::entry::FileKind;
use filegate::error::Error;
use filegate::listing::get_dir_content;
use filegate::range::DeliveryPlan;
use filegate::resolve::resolve;
use filegate::search::search_files;
use filegate::share::issue;

fn bv(s: &str) -> Vec<u8> {
    s.as_bytes().to_vec()
}

fn root_bytes(dir: &tempfile::TempDir) -> Vec<u8> {
    dir.path().to_string_lossy().into_owned().into_bytes()
}

fn fresh_root() -> tempfile::TempDir {
    tempfile::tempdir().unwrap()
}

fn make_dir(parent: &std::path::Path, name: &str) -> tempfile::TempDir {
    tempfile::Builder::new()
        .prefix(name)
        .rand_bytes(0)
        .tempdir_in(parent)
        .unwrap()
}

fn make_file(parent: &std::path::Path, name: &str, content: &[u8]) -> tempfile::NamedTempFile {
    let mut f = tempfile::Builder::new()
        .prefix(name)
        .rand_bytes(0)
        .tempfile_in(parent)
        .unwrap();
    f.write_all(content).unwrap();
    f.flush().unwrap();
    f
}

// Walks a download directory for a keyword: the conventional path when
// this machine has it, else one created for the test.
#[test]
fn test_walk_dir() {
    let fallback_root = fresh_root();
    let fallback_downloads = make_dir(fallback_root.path(), "Downloads");
    let storage = if std::path::Path::new("/home/ma/Downloads").is_dir() {
        bv("/home/ma/Downloads")
    } else {
        root_bytes(&fallback_downloads)
    };
    let keywords = "Hello";
    search_files(&storage, &bv(keywords)).expect("Error walking dir");
    assert!(true);
}

// Lists the subdirectories of a parent directory: `/home` when this
// machine has a populated one, else a parent created for the test.
#[test]
fn test_get_sub_directories() {
    let fallback_root = fresh_root();
    let _fallback_sub = make_dir(fallback_root.path(), "sub");
    let mut path = bv("/home");
    match get_dir_content(&path, true) {
        Ok(v) if v.len() > 0 => {}
        _ => path = root_bytes(&fallback_root),
    }
    let sub_directories = get_dir_content(&path, true).unwrap();
    println!("sub_directories: {:?}", &sub_directories);
    assert!(sub_directories.len() > 0);
}

#[test]
fn test_resolve_rejects_traversal() {
    let root = fresh_root();
    let rb = root_bytes(&root);
    for bad in ["..", "..%2Fsecret", "a%2F..%2F..%2Fb", "%2Fetc%2Fpasswd", "/etc/passwd", "a/../.."]
    {
        let r = resolve(&rb, &bv(bad));
        assert!(matches!(r, Err(Error::BadRequest)), "path {bad}");
    }
}

#[test]
fn test_resolve_rejects_nondir_component() {
    let root = fresh_root();
    let rb = root_bytes(&root);
    let _f = make_file(root.path(), "plain.txt", b"x");
    let through_file = resolve(&rb, &bv("plain.txt%2Fchild"));
    assert!(matches!(through_file, Err(Error::BadRequest)));
    let through_missing = resolve(&rb, &bv("ghost%2Fchild"));
    assert!(matches!(through_missing, Err(Error::NotFound)));
}

#[test]
fn test_get_dir_content_rejects_non_directories() {
    let root = fresh_root();
    let rb = root_bytes(&root);
    let _f = make_file(root.path(), "plain.txt", b"x");
    let file_path = [rb.clone(), bv("/plain.txt")].concat();
    assert!(matches!(get_dir_content(&file_path, false), Err(Error::BadRequest)));
    let missing = [rb.clone(), bv("/ghost")].concat();
    assert!(matches!(get_dir_content(&missing, false), Err(Error::BadRequest)));
}

#[test]
fn test_resolve_rejects_invalid_utf8() {
    let root = fresh_root();
    let rb = root_bytes(&root);
    assert!(matches!(resolve(&rb, &bv("%FF%FE")), Err(Error::BadRequest)));
}

#[test]
fn test_resolve_decodes_and_stats() {
    let root = fresh_root();
    let rb = root_bytes(&root);
    let sub = make_dir(root.path(), "sub");
    let _f = make_file(sub.path(), "file.txt", b"hello");
    let ok = resolve(&rb, &bv("sub%2Ffile.txt")).unwrap();
    assert!(ok.is_file && !ok.is_dir);
    assert_eq!(ok.size, 5);
    let dir = resolve(&rb, &bv("sub")).unwrap();
    assert!(dir.is_dir && !dir.is_file);
    assert!(matches!(resolve(&rb, &bv("missing.txt")), Err(Error::NotFound)));
    let whole = resolve(&rb, &bv("")).unwrap();
    assert!(whole.is_dir);
}

#[test]
fn test_dir_content_lists_children() {
    let root = fresh_root();
    let rb = root_bytes(&root);
    let _sub = make_dir(root.path(), "sub");
    let _a = make_file(root.path(), "foo.js", b"x");
    let _b = make_file(root.path(), "data.bin", b"\x00\x01");
    let entries = dir_content(&rb, None).unwrap();
    let mut names: Vec<String> = entries
        .iter()
        .map(|e| String::from_utf8(e.name.clone()).unwrap())
        .collect();
    names.sort();
    assert_eq!(names, vec!["data.bin", "foo.js", "sub"]);
    for e in &entries {
        match e.name.as_slice() {
            b"sub" => assert_eq!(e.kind, FileKind::Directory),
            b"foo.js" => {
                assert_eq!(e.kind, FileKind::Text);
                assert_eq!(e.size, 1);
                assert_eq!(e.relative_path, bv("foo.js"));
            }
            b"data.bin" => assert_eq!(e.kind, FileKind::Binary),
            other => panic!("unexpected entry {:?}", other),
        }
    }
    let again = dir_content(&rb, None).unwrap();
    let mut names2: Vec<String> = again
        .iter()
        .map(|e| String::from_utf8(e.name.clone()).unwrap())
        .collect();
    names2.sort();
    assert_eq!(names, names2);
    let not_dir = dir_content(&rb, Some(&bv("foo.js")));
    assert!(matches!(not_dir, Err(Error::BadRequest)));
}

#[test]
fn test_search_files_on_disk() {
    let root = fresh_root();
    let rb = root_bytes(&root);
    let _a = make_file(root.path(), "foo.js", b"x");
    let _b = make_file(root.path(), "foo.json", b"y");
    let _c = make_file(root.path(), "bar.txt", b"z");
    let js = search_files(&rb, &bv(".js")).unwrap();
    let names: Vec<String> = js
        .iter()
        .map(|e| String::from_utf8(e.name.clone()).unwrap())
        .collect();
    assert_eq!(names, vec!["foo.js"]);
    let both = search_files(&rb, &bv("foo")).unwrap();
    assert_eq!(both.len(), 2);
    let none = search_files(&rb, &bv("absent+foo")).unwrap();
    assert_eq!(none.len(), 0);
}

#[test]
fn test_file_delivery_range() {
    let root = fresh_root();
    let rb = root_bytes(&root);
    let content: Vec<u8> = (0..300u32).map(|i| (i % 251) as u8).collect();
    let _f = make_file(root.path(), "a.mp4", &content);
    let header = bv("bytes=100-199");
    let (p, plan) = file_delivery(&rb, &bv("a.mp4"), Some(&header)).unwrap();
    assert_eq!(p.size, 300);
    assert!(p.is_file);
    match plan {
        DeliveryPlan::Partial(br) => {
            assert_eq!((br.start, br.end, br.total), (100, 199, 300));
        }
        DeliveryPlan::Full => panic!("expected a partial plan"),
    }
    let sub = make_dir(root.path(), "somedir");
    let _ = sub;
    assert!(matches!(
        file_delivery(&rb, &bv("somedir"), None),
        Err(Error::BadRequest)
    ));
    assert!(matches!(
        file_delivery(&rb, &bv("gone.mp4"), None),
        Err(Error::NotFound)
    ));
}

#[test]
fn test_share_link_end_to_end() {
    let root = fresh_root();
    let rb = root_bytes(&root);
    let videos = make_dir(root.path(), "videos");
    let content: Vec<u8> = (0..300u32).map(|i| (i % 251) as u8).collect();
    let _f = make_file(videos.path(), "a.mp4", &content);
    let secret = bv("SECRET-REDACTED");
    let now = 1_700_000_000u64;
    let expire = now + 3600;
    let token = issue(&secret, &bv("videos/a.mp4"), expire);
    let header = bv("bytes=100-199");
    let (p, plan) = share_delivery(
        &secret,
        &rb,
        &bv("videos/a.mp4"),
        expire,
        &token.signature,
        now,
        Some(&header),
    )
    .unwrap();
    assert_eq!(p.size, 300);
    let (frame, body) = deliver_bytes(&content, &plan);
    assert!(frame.partial);
    assert_eq!(frame.total, 300);
    assert_eq!(frame.start, 100);
    assert_eq!(frame.end, 199);
    assert_eq!(frame.count, 100);
    assert_eq!(body.len(), 100);
    assert_eq!(body.as_slice(), &content[100..200]);
}

#[test]
fn test_share_link_expired_is_bad_request() {
    let root = fresh_root();
    let rb = root_bytes(&root);
    let content = b"0123456789";
    let _f = make_file(root.path(), "a.mp4", content);
    let secret = bv("SECRET-REDACTED");
    let now = 1_700_000_000u64;
    let expire = now - 1;
    let token = issue(&secret, &bv("a.mp4"), expire);
    let r = share_delivery(&secret, &rb, &bv("a.mp4"), expire, &token.signature, now, None);
    assert!(matches!(r, Err(Error::BadRequest)));
    let mut flipped = token.signature.clone();
    flipped[0] ^= 0x01;
    let r2 = share_delivery(&secret, &rb, &bv("a.mp4"), expire + 2, &flipped, now, None);
    assert!(matches!(r2, Err(Error::BadRequest)));
    let fresh = issue(&secret, &bv("a.mp4"), now + 10);
    let ok = share_delivery(&secret, &rb, &bv("a.mp4"), now + 10, &fresh.signature, now, None);
    assert!(ok.is_ok());
}
