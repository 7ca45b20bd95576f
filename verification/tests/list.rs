use netlab::list::List;

#[test]
fn basics() {
    let mut lst = List::new();
    assert_eq!(lst.pop(), None);
    lst.push(1);
    lst.push(2);
    assert_eq!(lst.pop(), Some(2));
    assert_eq!(lst.pop(), Some(1));
    assert_eq!(lst.pop(), None);
}

#[test]
fn pop_returns_last_pushed_and_restores() {
    let mut lst = List::new();
    lst.push(7);
    lst.push(-3);
    assert_eq!(lst.pop(), Some(-3));
    lst.push(i32::MAX);
    assert_eq!(lst.pop(), Some(i32::MAX));
    assert_eq!(lst.pop(), Some(7));
    assert_eq!(lst.pop(), None);
    assert_eq!(lst.pop(), None);
}

#[test]
fn long_list_drops_without_deep_recursion() {
    let mut lst = List::new();
    for i in 0..200_000 {
        lst.push(i);
    }
    assert_eq!(lst.pop(), Some(199_999));
    drop(lst);
}

#[test]
fn pops_return_pushes_in_reverse() {
    let xs = [5, -1, 9, 0, 42];
    let mut lst = List::new();
    for x in xs.iter() {
        lst.push(*x);
    }
    for x in xs.iter().rev() {
        assert_eq!(lst.pop(), Some(*x));
    }
    assert_eq!(lst.pop(), None);
    assert_eq!(lst.pop(), None);
}
