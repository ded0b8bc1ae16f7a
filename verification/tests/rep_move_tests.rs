use cursor_api::rep_move::{MutState, ReadState, RepMove};

#[test]
fn test_simple_clone() {
    let v = vec![1, 2, 3];
    let mut iter = RepMove::new(v, Vec::clone, 3);

    assert_eq!(iter.len(), 3);
    assert_eq!(iter.next(), Some(vec![1, 2, 3]));
    assert_eq!(iter.len(), 2);
    assert_eq!(iter.next(), Some(vec![1, 2, 3]));
    assert_eq!(iter.len(), 1);
    assert_eq!(iter.next(), Some(vec![1, 2, 3]));
    assert_eq!(iter.len(), 0);
    assert_eq!(iter.next(), None);
}

#[test]
fn test_state_aware() {
    let s = String::from("test");
    let mut iter = RepMove::new(s, ReadState(|s: &String, n| format!("{}-{}", s, n)), 2);

    assert_eq!(iter.next(), Some("test-1".to_string()));
    assert_eq!(iter.next(), Some("test".to_string()));
    assert_eq!(iter.next(), None);
}

#[test]
fn test_mutable_control() {
    let v = vec![1, 2, 3];
    let mut iter = RepMove::new(
        v,
        MutState(|v: &Vec<i32>, remaining: &mut usize| {
            if *remaining > 1 {
                *remaining = 1;
            } else {
                *remaining = remaining.saturating_sub(1);
            }
            v.clone()
        }),
        4,
    );

    assert_eq!(iter.next(), Some(vec![1, 2, 3]));
    assert_eq!(iter.next(), Some(vec![1, 2, 3]));
    assert_eq!(iter.next(), Some(vec![1, 2, 3]));
    assert_eq!(iter.next(), None);
}

#[test]
fn rep_move_zero_count_yields_nothing() {
    let mut iter = RepMove::new(7u8, |x: &u8| *x, 0);
    assert_eq!(iter.len(), 0);
    assert_eq!(iter.size_hint(), (0, Some(0)));
    assert_eq!(iter.next(), None);
    assert_eq!(iter.next(), None);
}
