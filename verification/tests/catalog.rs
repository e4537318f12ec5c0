use cbz_thumbnailer::cover::{attempt_order, eq_ignoring_case, name_extension, name_prefix, FoundKind};
use cbz_thumbnailer::{Contents, NameHash};

const ABC_DIGEST: [u8; 32] = [
    0xba, 0x78, 0x16, 0xbf, 0x8f, 0x01, 0xcf, 0xea, 0x41, 0x41, 0x40, 0xde, 0x5d, 0xae, 0x22, 0x23,
    0xb0, 0x03, 0x61, 0xa3, 0x96, 0x17, 0x7a, 0x9c, 0xb4, 0x10, 0xff, 0x61, 0xf2, 0x00, 0x15, 0xad,
];

const EMPTY_DIGEST: [u8; 32] = [
    0xe3, 0xb0, 0xc4, 0x42, 0x98, 0xfc, 0x1c, 0x14, 0x9a, 0xfb, 0xf4, 0xc8, 0x99, 0x6f, 0xb9, 0x24,
    0x27, 0xae, 0x41, 0xe4, 0x64, 0x9b, 0x93, 0x4c, 0xa4, 0x95, 0x99, 0x1b, 0x78, 0x52, 0xb8, 0x55,
];

fn folded(digest: &[u8; 32]) -> u64 {
    let mut sum = 0u64;
    for chunk in 0..4 {
        let mut bytes = [0u8; 8];
        bytes.copy_from_slice(&digest[8 * chunk..8 * chunk + 8]);
        sum = sum.wrapping_add(u64::from_le_bytes(bytes));
    }
    sum
}

#[test]
fn digest_folds_to_the_sum_of_its_chunks() {
    let mut digest = [0u8; 32];
    digest[0] = 1;
    digest[8] = 2;
    digest[16] = 3;
    digest[24] = 4;
    digest[25] = 1;
    assert_eq!(NameHash::from_digest(&digest), NameHash(1 + 2 + 3 + 4 + 256));
    assert_eq!(NameHash::from_digest(&[0u8; 32]), NameHash(0));
    assert_eq!(NameHash::from_digest(&[1, 2, 3, 4, 5, 6, 7, 8]), NameHash(0x0807060504030201));
}

#[test]
fn digest_fold_wraps_around() {
    assert_eq!(NameHash::from_digest(&[0xff; 32]), NameHash(u64::MAX - 3));
    assert_eq!(NameHash::from_digest(&[0xff; 16]), NameHash(u64::MAX - 1));
}

#[test]
fn digest_fold_ignores_an_incomplete_chunk() {
    assert_eq!(NameHash::from_digest(&[]), NameHash(0));
    assert_eq!(NameHash::from_digest(&[9, 9, 9]), NameHash(0));
    assert_eq!(NameHash::from_digest(&[5, 0, 0, 0, 0, 0, 0, 0, 9, 9, 9]), NameHash(5));
}

#[test]
fn name_hash_is_the_digest_of_the_joined_names() {
    let expected = NameHash(folded(&ABC_DIGEST));
    assert_eq!(NameHash::from_katalog(&vec![b"abc".to_vec()]), expected);
    assert_eq!(NameHash::from_katalog(&vec![b"a".to_vec(), b"bc".to_vec()]), expected);
    assert_eq!(
        NameHash::from_katalog(&vec![b"a".to_vec(), Vec::new(), b"b".to_vec(), b"c".to_vec()]),
        expected
    );
    assert_ne!(NameHash::from_katalog(&vec![b"bc".to_vec(), b"a".to_vec()]), expected);
}

#[test]
fn name_hash_of_no_names_is_the_empty_digest() {
    assert_eq!(NameHash::from_katalog(&Vec::new()), NameHash(folded(&EMPTY_DIGEST)));
    assert_eq!(NameHash::from_katalog(&vec![Vec::new()]), NameHash(folded(&EMPTY_DIGEST)));
}

#[test]
fn name_hash_writes_little_endian_hex() {
    assert_eq!(NameHash(0x0807060504030201).to_hex(), "0102030405060708");
    assert_eq!(NameHash(0).to_hex(), "0000000000000000");
    assert_eq!(NameHash(u64::MAX).to_hex(), "ffffffffffffffff");
    assert_eq!(NameHash(0xab).to_hex(), "ab00000000000000");
    assert_eq!(NameHash(0x1f00000000000000).to_hex(), "000000000000001f");
}

#[test]
fn name_hash_reads_hex_of_either_case() {
    assert_eq!(NameHash::from_hex("0102030405060708"), Some(NameHash(0x0807060504030201)));
    assert_eq!(NameHash::from_hex("ab00000000000000"), Some(NameHash(0xab)));
    assert_eq!(NameHash::from_hex("AB00000000000000"), Some(NameHash(0xab)));
    assert_eq!(NameHash::from_hex("aB000000000000Ff"), Some(NameHash(0xff000000000000ab)));
}

#[test]
fn name_hash_rejects_other_texts() {
    assert_eq!(NameHash::from_hex(""), None);
    assert_eq!(NameHash::from_hex("01020304050607"), None);
    assert_eq!(NameHash::from_hex("010203040506070"), None);
    assert_eq!(NameHash::from_hex("010203040506070809"), None);
    assert_eq!(NameHash::from_hex("010203040506070g"), None);
    assert_eq!(NameHash::from_hex("0x02030405060708"), None);
    assert_eq!(NameHash::from_hex(" 102030405060708"), None);
}

#[test]
fn name_hash_hex_reads_back() {
    for value in [0u64, 1, 0xdead_beef, u64::MAX, 0x0123_4567_89ab_cdef] {
        assert_eq!(NameHash::from_hex(&NameHash(value).to_hex()), Some(NameHash(value)));
    }
}

#[test]
fn contents_are_written_after_a_marker_line() {
    let contents = Contents {
        katalog: "/home/reader/comics".to_string(),
        name_hash: Some(NameHash(0x0807060504030201)),
    };
    let expected = "#katalog-proxy\nkatalog = \"/home/reader/comics\"\nname_hash = \"0102030405060708\"\n";
    assert_eq!(contents.write(), Some(expected.as_bytes().to_vec()));
}

#[test]
fn contents_without_hash_leave_it_out() {
    let contents = Contents { katalog: "comics".to_string(), name_hash: None };
    let expected = "#katalog-proxy\nkatalog = \"comics\"\n";
    assert_eq!(contents.write(), Some(expected.as_bytes().to_vec()));
}

#[test]
fn written_contents_are_toml() {
    let contents = Contents {
        katalog: "a \"quoted\" \\ path".to_string(),
        name_hash: Some(NameHash(7)),
    };
    let bytes = contents.write().unwrap();
    let text = String::from_utf8(bytes).unwrap();
    assert!(text.starts_with("#katalog-proxy\n"));
    let table: toml::Table = toml::from_str(&text).unwrap();
    assert_eq!(table.len(), 2);
    assert_eq!(table["katalog"].as_str(), Some("a \"quoted\" \\ path"));
    assert_eq!(table["name_hash"].as_str(), Some("0700000000000000"));
}

#[test]
fn rewrite_is_due_when_the_hash_changed_or_output_is_piped() {
    let with = |hash: Option<u64>| Contents { katalog: "k".to_string(), name_hash: hash.map(NameHash) };
    assert!(!with(None).needs_rewrite(None, false));
    assert!(!with(Some(1)).needs_rewrite(None, false));
    assert!(!with(Some(1)).needs_rewrite(Some(NameHash(1)), false));
    assert!(with(Some(1)).needs_rewrite(Some(NameHash(2)), false));
    assert!(with(None).needs_rewrite(Some(NameHash(2)), false));
    assert!(with(None).needs_rewrite(None, true));
    assert!(with(Some(1)).needs_rewrite(None, true));
    assert!(with(Some(1)).needs_rewrite(Some(NameHash(1)), true));
    assert!(with(Some(1)).needs_rewrite(Some(NameHash(2)), true));
}

#[test]
fn files_are_classified_by_name() {
    assert_eq!(FoundKind::of_name(b"volume 1.cbz"), Some(FoundKind::Archive));
    assert_eq!(FoundKind::of_name(b"VOLUME.CBZ"), Some(FoundKind::Archive));
    assert_eq!(FoundKind::of_name(b"a.b.CbZ"), Some(FoundKind::Archive));
    assert_eq!(FoundKind::of_name(b"cover.cbz"), Some(FoundKind::Archive));
    assert_eq!(FoundKind::of_name(b"cover.jpg"), Some(FoundKind::Cover));
    assert_eq!(FoundKind::of_name(b"Cover.PNG"), Some(FoundKind::Cover));
    assert_eq!(FoundKind::of_name(b"cover"), Some(FoundKind::Cover));
    assert_eq!(FoundKind::of_name(b".cover"), Some(FoundKind::Cover));
    assert_eq!(FoundKind::of_name(b".cover.jpg"), Some(FoundKind::Cover));
    assert_eq!(FoundKind::of_name(b".COVER.tar.gz"), Some(FoundKind::Cover));
    assert_eq!(FoundKind::of_name(b"cover.tar.gz"), Some(FoundKind::Cover));
}

#[test]
fn other_files_are_not_classified() {
    assert_eq!(FoundKind::of_name(b""), None);
    assert_eq!(FoundKind::of_name(b".cbz"), None);
    assert_eq!(FoundKind::of_name(b"cbz"), None);
    assert_eq!(FoundKind::of_name(b"a.cbz.bak"), None);
    assert_eq!(FoundKind::of_name(b"a.cbr"), None);
    assert_eq!(FoundKind::of_name(b"a.cbz."), None);
    assert_eq!(FoundKind::of_name(b"covers.jpg"), None);
    assert_eq!(FoundKind::of_name(b"my cover.jpg"), None);
    assert_eq!(FoundKind::of_name(b"x.cover"), None);
    assert_eq!(FoundKind::of_name(b"..cover"), None);
    assert_eq!(FoundKind::of_name(b"page1.jpg"), None);
}

#[test]
fn extension_and_prefix_follow_the_path_rules() {
    let names: Vec<&str> = vec![
        "a", "a.b", "a.b.c", ".a", ".a.b", ".a.b.c", "a.", "a..", "a..b", "..a", "...", "cover.cbz",
        ".cover", "x.CBZ", "no dots here", ".",
    ];
    for name in names {
        let path = std::path::Path::new(name);
        let extension = path.extension().map(|ext| ext.as_encoded_bytes());
        assert_eq!(name_extension(name.as_bytes()), extension);
    }
    assert_eq!(name_prefix(b"a.b.c"), b"a");
    assert_eq!(name_prefix(b".a.b.c"), b".a");
    assert_eq!(name_prefix(b"abc"), b"abc");
    assert_eq!(name_prefix(b".abc"), b".abc");
    assert_eq!(name_prefix(b"a."), b"a");
    assert_eq!(name_prefix(b""), b"");
}

#[test]
fn case_is_ignored_for_ascii_letters_only() {
    assert!(eq_ignoring_case(b"cbz", b"CBZ"));
    assert!(eq_ignoring_case(b"CbZ", b"cBz"));
    assert!(eq_ignoring_case(b"", b""));
    assert!(!eq_ignoring_case(b"cbz", b"cb"));
    assert!(!eq_ignoring_case(b"cbz", b"cbr"));
    assert!(!eq_ignoring_case(b"@", b"`"));
    assert!(!eq_ignoring_case(b"[", b"{"));
    assert!(!eq_ignoring_case(&[0xc9], &[0xe9]));
}

#[test]
fn covers_are_tried_before_archives() {
    let kinds = vec![FoundKind::Archive, FoundKind::Cover, FoundKind::Archive, FoundKind::Cover];
    assert_eq!(attempt_order(&kinds), vec![1, 3, 0, 2]);
    assert_eq!(attempt_order(&Vec::new()), Vec::<usize>::new());
    assert_eq!(attempt_order(&vec![FoundKind::Archive, FoundKind::Archive]), vec![0, 1]);
    assert_eq!(attempt_order(&vec![FoundKind::Cover]), vec![0]);
}
