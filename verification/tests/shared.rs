use std::sync::Arc;
use scifi::util::{Pipe, SharedString};

#[test]
fn one_copy_of_each_string_is_shared() {
    let mut strings = SharedString::new();
    let a = strings.get("gem");
    let b = strings.get("coin");
    let c = strings.get("gem");
    assert_eq!(&*a, "gem");
    assert_eq!(&*b, "coin");
    assert!(Arc::ptr_eq(&a, &c));
    assert!(!Arc::ptr_eq(&a, &b));
}

#[test]
fn pipe_hands_the_value_on() {
    let n: u32 = 5;
    assert_eq!(n.pipe(|x| x * 3 + 1), 16);
    let s = String::from("gem").pipe(|s| s.len());
    assert_eq!(s, 3);
}
