use cbz_thumbnailer::candidates::CandidateSet;
use cbz_thumbnailer::names::{compare_names, NameOrder};

#[test]
fn names_compare_byte_by_byte() {
    assert_eq!(compare_names(b"a", b"b"), NameOrder::Before);
    assert_eq!(compare_names(b"b", b"a"), NameOrder::After);
    assert_eq!(compare_names(b"abc", b"abc"), NameOrder::Same);
    assert_eq!(compare_names(b"", b""), NameOrder::Same);
    assert_eq!(compare_names(b"", b"a"), NameOrder::Before);
    assert_eq!(compare_names(b"a", b""), NameOrder::After);
    assert_eq!(compare_names(b"ab", b"abc"), NameOrder::Before);
    assert_eq!(compare_names(b"abd", b"abc"), NameOrder::After);
    assert_eq!(compare_names(b"Z", b"a"), NameOrder::Before);
    assert_eq!(compare_names(b"a/b", b"a.b"), NameOrder::After);
    assert_eq!(compare_names(&[0x7f], &[0x80]), NameOrder::Before);
    assert_eq!(compare_names(&[0xff], &[0x00, 0xff]), NameOrder::After);
    assert_eq!(compare_names("é".as_bytes(), b"z"), NameOrder::After);
}

#[test]
fn names_compare_as_byte_slices_do() {
    let names: Vec<&[u8]> = vec![b"", b"a", b"A", b"aa", b"ab", b"b", &[0xff], &[0x00], b"a/b", b"a.b"];
    for a in &names {
        for b in &names {
            let expected = if a < b {
                NameOrder::Before
            } else if a > b {
                NameOrder::After
            } else {
                NameOrder::Same
            };
            assert_eq!(compare_names(a, b), expected);
        }
    }
}

#[test]
fn candidate_set_orders_by_name() {
    let mut set = CandidateSet::new();
    assert_eq!(set.len(), 0);
    set.insert(b"b".to_vec(), 0);
    set.insert(b"a".to_vec(), 1);
    set.insert(b"c".to_vec(), 2);
    assert_eq!(set.len(), 3);
    assert_eq!(set.into_indices(), vec![1, 0, 2]);
}

#[test]
fn candidate_set_keeps_the_last_index_of_a_name() {
    let mut set = CandidateSet::new();
    set.insert(b"b".to_vec(), 0);
    set.insert(b"a".to_vec(), 1);
    set.insert(b"c".to_vec(), 2);
    set.insert(b"a".to_vec(), 3);
    set.insert(b"ab".to_vec(), 4);
    set.insert(b"c".to_vec(), 5);
    assert_eq!(set.len(), 4);
    assert_eq!(set.into_indices(), vec![3, 4, 0, 5]);
}

#[test]
fn empty_candidate_set_has_no_indices() {
    let set = CandidateSet::new();
    assert_eq!(set.into_indices(), Vec::<usize>::new());
}
