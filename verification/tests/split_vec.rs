use scifi::split_vec::SplitVec;

#[test]
fn iterate_empty() {
    let v = SplitVec::<i32>::new();
    assert!(None == v.iter().next())
}

#[test]
fn iterate_left_only() {
    let mut v = SplitVec::new();
    for n in 1..6 {
        v.push_left(n);
    }
    assert!(v.left_iter().len() == 5);
    assert!(v.right_iter().len() == 0);
    for (n, &m) in (1..6).zip(v.left_iter()) {
        assert!(n == m);
    }
}

#[test]
fn iterate_right_only() {
    let mut v = SplitVec::new();
    for n in 1..6 {
        v.push_right(n);
    }
    assert!(v.left_iter().len() == 0);
    assert!(v.right_iter().len() == 5);
    for (n, &m) in (1..6).zip(v.right_iter()) {
        assert!(n == m);
    }
}

#[test]
fn iterate_both() {
    let mut v = SplitVec::new();
    for n in 1..10 {
        if (n % 2) == 0 {
            v.push_left(n);
        } else {
            v.push_right(n);
        }
    }
    assert!(v.left_iter().len() == 4);
    assert!(v.right_iter().len() == 5);
    let mut all_left = v.clone();
    let mut all_right = v.clone();
    assert!(v.into_vec() == [2, 4, 6, 8, 5, 3, 7, 1, 9]);
    for _ in 0..9 {
        all_left.move_left(8);
    }
    for _ in 0..9 {
        all_right.move_right(0);
    }
    assert!(all_left.left_iter().len() == 9);
    assert!(all_left.right_iter().len() == 0);
    assert!(all_left.into_vec() == [2, 4, 6, 8, 9, 5, 3, 7, 1]);

    assert!(all_right.left_iter().len() == 0);
    assert!(all_right.right_iter().len() == 9);
    assert!(all_right.into_vec() == [4, 6, 8, 2, 5, 3, 7, 1, 9]);
}
