use ecstasy::pairs::{kinds_distinct, triangle_perms};

#[test]
fn lib_triangle_perms_test() {
    let v = vec![1, 2, 3];
    let v = triangle_perms(&v);
    assert_eq!(v, vec![(1, 2), (1, 3), (2, 3)]);
}

#[test]
fn triangle_perms_of_short_lists() {
    assert!(triangle_perms::<u8>(&[]).is_empty());
    assert!(triangle_perms(&[7]).is_empty());
    assert_eq!(triangle_perms(&['a', 'b']), vec![('a', 'b')]);
}

#[test]
fn distinct_kinds() {
    assert!(kinds_distinct(&[]));
    assert!(kinds_distinct(&[4]));
    assert!(kinds_distinct(&[1, 2, 3]));
    assert!(!kinds_distinct(&[1, 2, 1]));
    assert!(!kinds_distinct(&[7, 7]));
    assert!(!kinds_distinct(&[0, 1, 2, 3, 4, 3]));
}
