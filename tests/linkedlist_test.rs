use axolotl::builtin::linkedlist::List;

#[test]
fn list_basics() {
    let list = List::new();
    assert_eq!(list.head(), None);

    let list = list.prepend(1).prepend(2).prepend(3);
    assert_eq!(list.head(), Some(&3));

    let list = list.tail();
    assert_eq!(list.head(), Some(&2));

    let list = list.tail();
    assert_eq!(list.head(), Some(&1));

    let list = list.tail();
    assert_eq!(list.head(), None);

    // Make sure empty tail works
    let list = list.tail();
    assert_eq!(list.head(), None);
}

#[test]
fn prepend_shares_the_old_list() {
    let base = List::new().prepend(10);
    let a = base.prepend(1);
    let b = base.prepend(2);
    assert_eq!(a.head(), Some(&1));
    assert_eq!(b.head(), Some(&2));
    assert_eq!(a.tail().head(), Some(&10));
    assert_eq!(b.tail().head(), Some(&10));
    assert_eq!(base.head(), Some(&10));
}
