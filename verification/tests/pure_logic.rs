use filegate::bytes::contains_bytes;
use filegate::bytes::eq_bytes;
use filegate::bytes::hex_encode;
use filegate::bytes::parse_u64;
use filegate::bytes::split_bytes;
use filegate::bytes::to_lower;
use filegate::bytes::u64_to_dec;
use filegate::deliver::deliver_bytes;
use filegate::entry::classify;
use filegate::entry::ext_from;
use filegate::entry::FileKind;
use filegate::error::Error;
use filegate::fswrap::RawEntry;
use filegate::fswrap::WalkItem;
use filegate::range::negotiate;
use filegate::range::ByteRange;
use filegate::range::DeliveryPlan;
use filegate::search::contains_all_keywords;
use filegate::search::search_items;
use filegate::share::issue;
use filegate::share::verify;

fn bv(s: &str) -> Vec<u8> {
    s.as_bytes().to_vec()
}

fn entry_item(path: &str, name: &str, is_dir: bool, size: u64) -> WalkItem {
    WalkItem::Entry(RawEntry {
        path: bv(path),
        name: bv(name),
        is_dir,
        is_file: !is_dir,
        size,
        modified: 7,
    })
}

fn names_of(entries: &[filegate::entry::FileEntry]) -> Vec<String> {
    let mut v: Vec<String> = entries
        .iter()
        .map(|e| String::from_utf8(e.name.clone()).unwrap())
        .collect();
    v.sort();
    v
}

#[test]
fn test_to_lower_and_contains() {
    assert_eq!(to_lower(&bv("FoO-9.Z")), bv("foo-9.z"));
    assert!(contains_bytes(&bv("hello world"), &bv("o wo")));
    assert!(!contains_bytes(&bv("hello"), &bv("world")));
    assert!(contains_bytes(&bv("abc"), &bv("")));
    assert!(eq_bytes(&bv("same"), &bv("same")));
    assert!(!eq_bytes(&bv("same"), &bv("sam")));
}

#[test]
fn test_split_and_numbers() {
    let parts = split_bytes(&bv("a+b++c"), 43);
    let strs: Vec<Vec<u8>> = vec![bv("a"), bv("b"), bv(""), bv("c")];
    assert_eq!(parts, strs);
    assert_eq!(split_bytes(&bv(""), 43), vec![bv("")]);
    assert_eq!(u64_to_dec(0), bv("0"));
    assert_eq!(u64_to_dec(90210), bv("90210"));
    assert_eq!(u64_to_dec(u64::MAX), bv("18446744073709551615"));
    assert_eq!(parse_u64(&bv("90210")), Some(90210));
    assert_eq!(parse_u64(&bv("")), None);
    assert_eq!(parse_u64(&bv("12a")), None);
    assert_eq!(parse_u64(&bv("18446744073709551615")), Some(u64::MAX));
    assert_eq!(parse_u64(&bv("18446744073709551616")), None);
    assert_eq!(hex_encode(&vec![0x00, 0xff, 0x5b]), bv("00ff5b"));
}

#[test]
fn test_extension_and_kind() {
    assert_eq!(ext_from(&bv("foo.tar.gz")), Some(bv("gz")));
    assert_eq!(ext_from(&bv(".bashrc")), None);
    assert_eq!(ext_from(&bv("noext")), None);
    assert_eq!(ext_from(&bv("odd.")), Some(bv("")));
    assert_eq!(classify(&bv("a.TXT"), false), FileKind::Text);
    assert_eq!(classify(&bv("a.bin"), false), FileKind::Binary);
    assert_eq!(classify(&bv("a.txt"), true), FileKind::Directory);
    assert_eq!(classify(&bv("movie.mp4"), false), FileKind::Binary);
}

#[test]
fn test_negotiate_no_header_is_full() {
    for size in [0u64, 1, 10, 1 << 40] {
        assert_eq!(negotiate(None, size), Ok(DeliveryPlan::Full));
    }
}

#[test]
fn test_negotiate_zero_zero() {
    let h = bv("bytes=0-0");
    assert_eq!(
        negotiate(Some(&h), 10),
        Ok(DeliveryPlan::Partial(ByteRange { start: 0, end: 0, total: 10 }))
    );
    assert_eq!(negotiate(Some(&h), 0), Err(Error::BadRequest));
}

#[test]
fn test_negotiate_start_at_size_unsatisfiable() {
    for size in [0u64, 1, 10, 999] {
        let h = bv(&format!("bytes={}-{}", size, size));
        assert_eq!(negotiate(Some(&h), size), Err(Error::BadRequest));
    }
}

#[test]
fn test_negotiate_forms() {
    let size = 10u64;
    let open_end = bv("bytes=3-");
    assert_eq!(
        negotiate(Some(&open_end), size),
        Ok(DeliveryPlan::Partial(ByteRange { start: 3, end: 9, total: 10 }))
    );
    let suffix = bv("bytes=-4");
    assert_eq!(
        negotiate(Some(&suffix), size),
        Ok(DeliveryPlan::Partial(ByteRange { start: 6, end: 9, total: 10 }))
    );
    let long_suffix = bv("bytes=-999");
    assert_eq!(
        negotiate(Some(&long_suffix), size),
        Ok(DeliveryPlan::Partial(ByteRange { start: 0, end: 9, total: 10 }))
    );
    let clamped = bv("bytes=5-12345");
    assert_eq!(
        negotiate(Some(&clamped), size),
        Ok(DeliveryPlan::Partial(ByteRange { start: 5, end: 9, total: 10 }))
    );
}

#[test]
fn test_negotiate_malformed() {
    let size = 10u64;
    for h in [
        "bytes=", "bytes=-", "bytes=a-b", "1-2", "bytes=1-2,3-4", "bytes=2-1", "bytes=1-2-3",
        "byte=1-2", "bytes=-0",
    ] {
        let hv = bv(h);
        assert_eq!(negotiate(Some(&hv), size), Err(Error::BadRequest), "header {h}");
    }
}

#[test]
fn test_deliver_bytes_framing() {
    let data: Vec<u8> = (0..300u32).map(|i| (i % 251) as u8).collect();
    let plan = DeliveryPlan::Partial(ByteRange { start: 100, end: 199, total: 300 });
    let (frame, body) = deliver_bytes(&data, &plan);
    assert!(frame.partial);
    assert_eq!(frame.total, 300);
    assert_eq!(frame.start, 100);
    assert_eq!(frame.end, 199);
    assert_eq!(frame.count, 100);
    assert_eq!(body.len(), 100);
    assert_eq!(body.as_slice(), &data[100..200]);
    let (full_frame, full_body) = deliver_bytes(&data, &DeliveryPlan::Full);
    assert!(!full_frame.partial);
    assert_eq!(full_frame.count, 300);
    assert_eq!(full_body, data);
}

#[test]
fn test_share_round_trip() {
    let secret = bv("SECRET-REDACTED");
    let path = bv("videos/a.mp4");
    let token = issue(&secret, &path, 1000);
    assert_eq!(token.expire_at, 1000);
    assert_eq!(token.relative_path, path);
    assert_eq!(token.signature.len(), 64);
    assert!(verify(&secret, &path, 1000, &token.signature, 500));
    assert!(verify(&secret, &path, 1000, &token.signature, 1000));
    assert!(!verify(&secret, &path, 1000, &token.signature, 1001));
    let mut flipped = token.signature.clone();
    flipped[10] ^= 0x01;
    assert!(!verify(&secret, &path, 1000, &flipped, 500));
    let other_secret = bv("another-secret");
    assert!(!verify(&other_secret, &path, 1000, &token.signature, 500));
    let other_path = bv("videos/b.mp4");
    assert!(!verify(&secret, &other_path, 1000, &token.signature, 500));
}

#[test]
fn test_share_link_string_form() {
    let secret = bv("k");
    let link = filegate::api::generate_share_link(&secret, &bv("a b/c.txt"), 123);
    let s = String::from_utf8(link).unwrap();
    assert!(s.starts_with("hash="));
    assert!(s.ends_with("&expire=123&path=a%20b%2Fc.txt"));
    let sig = &s[5..s.find('&').unwrap()];
    assert_eq!(sig.len(), 64);
    assert!(sig.bytes().all(|b| b.is_ascii_hexdigit()));
}

#[test]
fn test_contains_all_keywords() {
    let kws = vec![bv("FOO"), bv(".JSON")];
    assert!(contains_all_keywords(&bv("foo.json"), false, &kws));
    assert!(!contains_all_keywords(&bv("foo.js"), false, &kws));
    assert!(!contains_all_keywords(&bv("foo.json"), true, &kws));
    let plain = vec![bv("foo")];
    assert!(contains_all_keywords(&bv("FOO.js"), false, &plain));
    assert!(contains_all_keywords(&bv("a-foo-dir"), true, &plain));
    assert!(!contains_all_keywords(&bv("bar.txt"), false, &plain));
    let empty: Vec<Vec<u8>> = Vec::new();
    assert!(contains_all_keywords(&bv("anything"), false, &empty));
}

#[test]
fn test_search_items_queries() {
    let root = bv("/srv/data");
    let items = vec![
        entry_item("/srv/data", "data", true, 0),
        entry_item("/srv/data/foo.js", "foo.js", false, 3),
        entry_item("/srv/data/foo.json", "foo.json", false, 4),
        entry_item("/srv/data/bar.txt", "bar.txt", false, 5),
    ];
    let js = search_items(&items, &vec![bv(".js")], &root).unwrap();
    assert_eq!(names_of(&js), vec!["foo.js"]);
    let foo = search_items(&items, &vec![bv("foo")], &root).unwrap();
    assert_eq!(names_of(&foo), vec!["foo.js", "foo.json"]);
    let mixed = search_items(&items, &vec![bv("FOO"), bv(".JSON")], &root).unwrap();
    assert_eq!(names_of(&mixed), vec!["foo.json"]);
    let rel: Vec<String> = mixed
        .iter()
        .map(|e| String::from_utf8(e.relative_path.clone()).unwrap())
        .collect();
    assert_eq!(rel, vec!["foo.json"]);
}

#[test]
fn test_search_items_aborts_on_fault() {
    let root = bv("/srv/data");
    let items = vec![
        entry_item("/srv/data/foo.js", "foo.js", false, 3),
        WalkItem::Fault,
        entry_item("/srv/data/bar.txt", "bar.txt", false, 5),
    ];
    assert!(matches!(search_items(&items, &vec![bv("foo")], &root), Err(Error::IOError)));
}

#[test]
fn test_list_items_order_insensitive() {
    let root = bv("/srv/data");
    let a = vec![
        entry_item("/srv/data/x.txt", "x.txt", false, 1),
        WalkItem::Fault,
        entry_item("/srv/data/sub", "sub", true, 0),
    ];
    let b = vec![
        entry_item("/srv/data/sub", "sub", true, 0),
        entry_item("/srv/data/x.txt", "x.txt", false, 1),
        WalkItem::Fault,
    ];
    let la = filegate::listing::list_items(&a, &root);
    let lb = filegate::listing::list_items(&b, &root);
    assert_eq!(names_of(&la), names_of(&lb));
    assert_eq!(names_of(&la), vec!["sub", "x.txt"]);
    assert_eq!(names_of(&filegate::listing::list_items(&a, &root)), names_of(&la));
}

#[test]
fn test_user_dirs() {
    let storage = bv("/srv");
    let user = bv("alice");
    assert_eq!(filegate::api::get_user_root_dir(&storage, &user), bv("/srv/alice"));
    assert_eq!(filegate::api::get_user_files_dir(&storage, &user), bv("/srv/alice/files"));
    assert_eq!(filegate::api::get_user_tmp_dir(&storage, &user), bv("/srv/alice/tmp"));
    let paths = vec![bv("a"), bv("b")];
    assert_eq!(
        filegate::api::get_required_dir(&storage, &user, &paths),
        bv("/srv/alice/files/a/b")
    );
}

#[test]
fn test_parse_volume_lines() {
    let out = bv(
        "NAME MAJ:MIN RM SIZE RO TYPE MOUNTPOINTS\nsda 8:0 0 100G 0 disk /\nsdb 8:16 0 50G 0 disk /data\nloop0 7:0 0 4G 1 loop \n",
    );
    let mounts = filegate::volumes::parse_volume_lines(&out, false);
    assert_eq!(mounts, vec![bv("/"), bv("/data")]);
    let mac = bv("Filesystem Size Used Avail Capacity Mounted on\n/dev/disk3s1s1 500G 10G 400G 3% /\n/dev/disk3s6 500G 1G 400G 1% /System/Volumes/VM\n");
    let kept = filegate::volumes::parse_volume_lines(&mac, true);
    assert_eq!(kept, vec![bv("/")]);
    let all = filegate::volumes::parse_volume_lines(&mac, false);
    assert_eq!(all, vec![bv("/"), bv("/System/Volumes/VM")]);
}

#[test]
fn test_error_kinds_are_distinct() {
    let kinds = [Error::BadRequest, Error::NotFound, Error::IOError, Error::InternalError];
    for (i, a) in kinds.iter().enumerate() {
        for (j, b) in kinds.iter().enumerate() {
            assert_eq!(a == b, i == j);
        }
    }
}
