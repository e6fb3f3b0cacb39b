use omgwtf8::elem::{slice_contains, slice_find, slice_split, SliceElemSearcher};

#[test]
fn test_slice_pattern_api() {
    let p = &[1, 2, 3, 4, 5, 6][..];
    assert!(slice_contains(p, &1));
    assert!(slice_contains(p, &3));
    assert!(slice_contains(p, &6));
    assert!(!slice_contains(p, &10));

    assert_eq!(slice_find(p, &1), Some(0));
    assert_eq!(slice_find(p, &3), Some(2));
    assert_eq!(slice_find(p, &6), Some(5));
    assert_eq!(slice_find(p, &10), None);

    let q = &[1, 2, 3, 4, 1, 2, 4, 1, 5, 4, 4, 4, 7][..];
    assert_eq!(
        slice_split(q, &4),
        vec![&[1, 2, 3][..], &[1, 2][..], &[1, 5][..], &[], &[], &[7][..]]
    );
}

#[test]
fn slice_searcher_steps_through_matches() {
    let h = [7, 1, 7, 7];
    let mut s = SliceElemSearcher::new(&7, &h[..]);
    assert_eq!(s.next_match(), Some((0, 1)));
    assert_eq!(s.next_match(), Some((2, 3)));
    assert_eq!(s.next_match(), Some((3, 4)));
    assert_eq!(s.next_match(), None);
    assert_eq!(s.haystack(), &h[..]);
}

#[test]
fn slice_split_edge_cases() {
    let empty: &[u8] = &[];
    assert_eq!(slice_split(empty, &0), vec![empty]);
    assert_eq!(slice_split(&[0u8][..], &0), vec![empty, empty]);
    assert_eq!(slice_split(&[1u8, 2][..], &0), vec![&[1u8, 2][..]]);
}
