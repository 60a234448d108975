use wtftw_core::layout::Layout;
use wtftw_core::layout::TallLayout;
use wtftw_core::stack::Stack;
use wtftw_core::workspace::Workspace;

#[test]
fn workspace_contains() {
    let s1 = Stack::new(42, vec![2, 3], vec![4, 5, 6]);
    let w1 = Workspace::new(
        1,
        String::from("Foo"),
        Layout::Tall(TallLayout { increment_ratio: 100, num_master: 1, ratio: 100 }),
        Some(s1),
    );
    let w2 = Workspace::new(
        1,
        String::from("Foo"),
        Layout::Tall(TallLayout { increment_ratio: 100, num_master: 1, ratio: 100 }),
        None,
    );

    assert!(w1.contains(42));
    assert!(!w1.contains(23));
    assert!(!w2.contains(2));
}

#[test]
fn workspace_add_and_remove() {
    let w = Workspace::new(1, String::from("term"), Layout::Full(wtftw_core::layout::FullLayout), None);
    let w = w.add(7);
    assert!(w.contains(7));
    let w = w.add(8);
    assert!(w.contains(7) && w.contains(8));
    // adding an already-held window changes nothing
    let w2 = w.add(8);
    assert!(w2.contains(7) && w2.contains(8));
    let w = w.remove(8);
    assert!(w.contains(7) && !w.contains(8));
    let w = w.remove(7);
    assert!(!w.contains(7));
    assert!(w.stack.is_none());
}

#[test]
fn workspace_send_message_swaps_the_layout() {
    let gap = wtftw_core::layout::GapLayout::new(8, wtftw_core::layout::FullLayout::new());
    let w = Workspace::new(3, String::from("media"), gap, Some(Stack::new(1, vec![], vec![])));
    let screen = wtftw_core::geometry::Rectangle { x: 0, y: 0, width: 100, height: 100 };
    let none = wtftw_core::geometry::Struts { top: 0, bottom: 0, left: 0, right: 0 };
    let grown = w.send_message(wtftw_core::messages::LayoutMessage::IncreaseGap);
    assert_eq!(
        grown.apply_layout(screen, none),
        vec![(1, wtftw_core::geometry::Rectangle { x: 10, y: 10, width: 80, height: 80 })]
    );
    // a message nobody handles leaves the workspace unchanged
    let same = w.send_message(wtftw_core::messages::LayoutMessage::IncreaseMaster);
    assert_eq!(same.apply_layout(screen, none), w.apply_layout(screen, none));
}

#[test]
fn workspace_remove_focus_falls_back_to_up() {
    let s = Stack::new(9, vec![1, 2], vec![]);
    let w = Workspace::new(1, String::from("web"), Layout::Full(wtftw_core::layout::FullLayout), Some(s));
    let r = w.remove(9).stack.expect("stack should survive");
    assert_eq!(r.focus, 1);
    assert_eq!(r.up, vec![2]);
    assert_eq!(r.down, Vec::<u64>::new());
}

#[test]
fn workspace_remove_focus_prefers_down() {
    let s = Stack::new(2, vec![1], vec![3, 4]);
    let w = Workspace::new(1, String::from("web"), Layout::Full(wtftw_core::layout::FullLayout), Some(s));
    let w = w.remove(2);
    let s = w.stack.expect("stack should survive");
    assert_eq!(s.focus, 3);
    assert_eq!(s.up, vec![1]);
    assert_eq!(s.down, vec![4]);
}
