use wtftw_core::stack::Stack;

#[test]
fn focus_down_example() {
    let s = Stack::new(42, vec![2, 3], vec![4, 5, 6]);
    let r = s.focus_down();
    assert_eq!(r.focus, 4);
    assert_eq!(r.up, vec![42, 2, 3]);
    assert_eq!(r.down, vec![5, 6]);
    assert!(s.contains(2));
    assert!(!s.contains(99));
}

#[test]
fn focus_down_then_up_restores() {
    let s = Stack::new(42, vec![2, 3], vec![4, 5, 6]);
    assert_eq!(s.focus_down().focus_up(), s);
    assert_eq!(s.focus_up().focus_down(), s);
    let single = Stack::new(1, vec![], vec![]);
    assert_eq!(single.focus_down().focus_up(), single);
}

#[test]
fn focus_down_full_cycle_restores() {
    let s = Stack::new(42, vec![2, 3], vec![4, 5, 6]);
    let mut r = s.clone();
    for _ in 0..s.len() {
        r = r.focus_down();
    }
    assert_eq!(r, s);
}

#[test]
fn focus_wraps_at_both_ends() {
    // order is [3, 2, 42]; focus at the end wraps to the front
    let s = Stack::new(42, vec![2, 3], vec![]);
    let r = s.focus_down();
    assert_eq!(r.focus, 3);
    assert_eq!(r.up, Vec::<u64>::new());
    assert_eq!(r.down, vec![2, 42]);
    // and one step back up returns to the end
    assert_eq!(r.focus_up(), s);
}

#[test]
fn swap_master_moves_focus_to_front() {
    let s = Stack::new(42, vec![2, 3], vec![4]);
    let r = s.swap_master();
    assert_eq!(r.focus, 42);
    assert_eq!(r.up, Vec::<u64>::new());
    assert_eq!(r.down, vec![3, 2, 4]);
    // twice is the same as once, and a master focus is a no-op
    assert_eq!(r.swap_master(), r);
    assert_eq!(s.swap_master().swap_master(), s.swap_master());
}

#[test]
fn swap_up_and_down() {
    let s = Stack::new(2, vec![1], vec![3]);
    let d = s.swap_down();
    assert_eq!(d.focus, 2);
    assert_eq!(d.up, vec![3, 1]);
    assert_eq!(d.down, Vec::<u64>::new());
    let u = s.swap_up();
    assert_eq!(u.focus, 2);
    assert_eq!(u.up, Vec::<u64>::new());
    assert_eq!(u.down, vec![1, 3]);
    // wrap: swapping down past the end moves the focus to the front
    let w = d.swap_down();
    assert_eq!(w.focus, 2);
    assert_eq!(w.up, Vec::<u64>::new());
    assert_eq!(w.down, vec![1, 3]);
}

#[test]
fn insert_pushes_old_focus_down() {
    let s = Stack::new(5, vec![4], vec![6]);
    let r = s.insert(9);
    assert_eq!(r.focus, 9);
    assert_eq!(r.up, vec![4]);
    assert_eq!(r.down, vec![5, 6]);
    assert!(r.contains(9) && r.contains(5) && r.contains(4) && r.contains(6));
    assert!(!r.contains(7));
}

#[test]
fn focus_window_keeps_order() {
    let s = Stack::new(42, vec![2, 3], vec![4, 5, 6]);
    let r = s.focus_window(5);
    assert_eq!(r.focus, 5);
    assert_eq!(r.up, vec![4, 42, 2, 3]);
    assert_eq!(r.down, vec![6]);
    // an absent window changes nothing
    assert_eq!(s.focus_window(99), s);
}

#[test]
fn integrate_lists_visible_order() {
    let s = Stack::new(42, vec![2, 3], vec![4, 5, 6]);
    assert_eq!(s.integrate(), vec![3, 2, 42, 4, 5, 6]);
    assert_eq!(s.len(), 6);
}
