use wtftw_core::bsp::BinarySpacePartition;
use wtftw_core::geometry::Direction;
use wtftw_core::geometry::Rectangle;
use wtftw_core::geometry::Struts;
use wtftw_core::layout::AvoidStrutsLayout;
use wtftw_core::layout::FullLayout;
use wtftw_core::layout::GapLayout;
use wtftw_core::layout::Layout;
use wtftw_core::layout::LayoutCollection;
use wtftw_core::layout::MirrorLayout;
use wtftw_core::layout::NoBordersLayout;
use wtftw_core::layout::TallLayout;
use wtftw_core::messages::LayoutMessage;
use wtftw_core::stack::Stack;

fn screen() -> Rectangle {
    Rectangle { x: 0, y: 0, width: 100, height: 100 }
}

#[test]
fn gap_layout_example() {
    let gap = GapLayout::new(8, FullLayout::new());
    let r = gap.apply(&vec![1], screen(), Struts::none());
    assert_eq!(r, vec![(1, Rectangle { x: 8, y: 8, width: 84, height: 84 })]);
}

#[test]
fn full_layout_stacks_everything() {
    let full = FullLayout::new();
    let r = full.apply(&vec![1, 2, 3], screen(), Struts::none());
    assert_eq!(r.len(), 3);
    for (i, (w, rect)) in r.iter().enumerate() {
        assert_eq!(*w, (i + 1) as u64);
        assert_eq!(*rect, screen());
    }
}

#[test]
fn bsp_partitions_the_screen() {
    let bsp = BinarySpacePartition::new();
    let r = bsp.apply(&vec![1, 2, 3], screen(), Struts::none());
    assert_eq!(
        r,
        vec![
            (1, Rectangle { x: 0, y: 0, width: 50, height: 100 }),
            (2, Rectangle { x: 50, y: 0, width: 50, height: 50 }),
            (3, Rectangle { x: 50, y: 50, width: 50, height: 50 }),
        ]
    );
    // exactly one rectangle per window, pairwise disjoint, covering the screen
    let mut area: u64 = 0;
    for (i, (_, a)) in r.iter().enumerate() {
        area += (a.width as u64) * (a.height as u64);
        for (_, b) in r.iter().skip(i + 1) {
            let overlap_x = a.x < b.x + b.width && b.x < a.x + a.width;
            let overlap_y = a.y < b.y + b.height && b.y < a.y + a.height;
            assert!(!(overlap_x && overlap_y));
        }
    }
    assert_eq!(area, 100 * 100);
}

#[test]
fn bsp_expand_then_shrink_restores_geometry() {
    let bsp = BinarySpacePartition::new();
    let stack = Some(Stack::new(1, vec![], vec![2]));
    let before = bsp.apply(&vec![1, 2], screen(), Struts::none());
    let grown = bsp
        .handle_message(LayoutMessage::TreeExpandTowards(Direction::Left), &stack)
        .expect("expand applies");
    assert_ne!(grown.apply(&vec![1, 2], screen(), Struts::none()), before);
    let back = grown
        .handle_message(LayoutMessage::TreeShrinkFrom(Direction::Left), &stack)
        .expect("shrink applies");
    assert_eq!(back.apply(&vec![1, 2], screen(), Struts::none()), before);
}

#[test]
fn tall_layout_master_and_stack() {
    let tall = Layout::Tall(TallLayout { increment_ratio: 5, num_master: 1, ratio: 50 });
    let r = tall.apply(&vec![1, 2, 3], screen(), Struts::none());
    assert_eq!(
        r,
        vec![
            (1, Rectangle { x: 0, y: 0, width: 50, height: 100 }),
            (2, Rectangle { x: 50, y: 0, width: 50, height: 50 }),
            (3, Rectangle { x: 50, y: 50, width: 50, height: 50 }),
        ]
    );
}

#[test]
fn mirror_exchanges_axes() {
    let tall = Layout::Tall(TallLayout { increment_ratio: 5, num_master: 1, ratio: 50 });
    let mirrored = MirrorLayout::new(tall);
    let r = mirrored.apply(&vec![1, 2], screen(), Struts::none());
    assert_eq!(
        r,
        vec![
            (1, Rectangle { x: 0, y: 0, width: 100, height: 50 }),
            (2, Rectangle { x: 0, y: 50, width: 100, height: 50 }),
        ]
    );
}

#[test]
fn avoid_struts_removes_reserved_edges() {
    let l = AvoidStrutsLayout::new(vec![Direction::Up, Direction::Down], FullLayout::new());
    let struts = Struts { top: 10, bottom: 20, left: 5, right: 5 };
    let r = l.apply(&vec![1], screen(), struts);
    assert_eq!(r, vec![(1, Rectangle { x: 0, y: 10, width: 100, height: 70 })]);
}

#[test]
fn collection_next_cycles_back() {
    let coll = LayoutCollection::new(vec![FullLayout::new(), FullLayout::new(), FullLayout::new()]);
    let index_of = |l: &Layout| -> usize {
        match l {
            Layout::Collection(c) => c.index,
            _ => panic!("not a collection"),
        }
    };
    assert_eq!(index_of(&coll), 0);
    let mut l = coll;
    for _ in 0..3 {
        l = l.handle_message(LayoutMessage::Next, &None).expect("collection cycles");
    }
    assert_eq!(index_of(&l), 0);
    // two Next then one Prev equals one Next
    let two_next_one_prev = l
        .handle_message(LayoutMessage::Next, &None)
        .unwrap()
        .handle_message(LayoutMessage::Next, &None)
        .unwrap()
        .handle_message(LayoutMessage::Prev, &None)
        .unwrap();
    let one_next = l.handle_message(LayoutMessage::Next, &None).unwrap();
    assert_eq!(index_of(&two_next_one_prev), index_of(&one_next));
}

#[test]
fn gap_messages_adjust_the_margin() {
    let gap = GapLayout::new(8, FullLayout::new());
    let bigger = gap.handle_message(LayoutMessage::IncreaseGap, &None).expect("handled");
    let r = bigger.apply(&vec![1], screen(), Struts::none());
    assert_eq!(r, vec![(1, Rectangle { x: 10, y: 10, width: 80, height: 80 })]);
    let back = bigger.handle_message(LayoutMessage::DecreaseGap, &None).expect("handled");
    assert_eq!(
        back.apply(&vec![1], screen(), Struts::none()),
        vec![(1, Rectangle { x: 8, y: 8, width: 84, height: 84 })]
    );
    // the margin floors at zero
    let zero = GapLayout::new(1, FullLayout::new())
        .handle_message(LayoutMessage::DecreaseGap, &None)
        .expect("handled");
    assert_eq!(zero.apply(&vec![1], screen(), Struts::none()), vec![(1, screen())]);
}

#[test]
fn no_borders_layout_has_border_zero() {
    let l = NoBordersLayout::new(Box::new(FullLayout::new()));
    assert_eq!(l.border_width(), Some(0));
    assert_eq!(FullLayout::new().border_width(), None);
}

#[test]
fn placements_carry_the_border_width() {
    let w = wtftw_core::workspace::Workspace::new(
        0,
        String::from("term"),
        *NoBordersLayout::new(Box::new(FullLayout::new())),
        Some(Stack::new(7, vec![], vec![])),
    );
    let r = w.apply_layout_with_borders(screen(), Struts::none(), 2);
    assert_eq!(r, vec![(7, screen(), 0)]);
    let plain = wtftw_core::workspace::Workspace::new(
        0,
        String::from("term"),
        FullLayout::new(),
        Some(Stack::new(7, vec![], vec![])),
    );
    let r2 = plain.apply_layout_with_borders(screen(), Struts::none(), 2);
    assert_eq!(r2, vec![(7, screen(), 2)]);
}

#[test]
fn unknown_messages_are_ignored() {
    let full = FullLayout::new();
    assert!(full.handle_message(LayoutMessage::Hide, &None).is_none());
    assert!(full.handle_message(LayoutMessage::Increase, &None).is_none());
    let tall = Layout::Tall(TallLayout { increment_ratio: 5, num_master: 1, ratio: 50 });
    assert!(tall.handle_message(LayoutMessage::IncreaseGap, &None).is_none());
}

#[test]
fn tall_ratio_saturates() {
    let tall = Layout::Tall(TallLayout { increment_ratio: 60, num_master: 1, ratio: 50 });
    let up = tall.handle_message(LayoutMessage::Increase, &None).expect("handled");
    match &up {
        Layout::Tall(t) => assert_eq!(t.ratio, 100),
        _ => panic!("still tall"),
    }
    let down = up
        .handle_message(LayoutMessage::Decrease, &None)
        .unwrap()
        .handle_message(LayoutMessage::Decrease, &None)
        .unwrap();
    match &down {
        Layout::Tall(t) => assert_eq!(t.ratio, 0),
        _ => panic!("still tall"),
    }
}

#[test]
fn copy_is_independent_and_equal_in_content() {
    let l = GapLayout::new(8, AvoidStrutsLayout::new(vec![Direction::Up], BinarySpacePartition::new()));
    let c = l.copy();
    assert_eq!(
        l.apply(&vec![1, 2], screen(), Struts::none()),
        c.apply(&vec![1, 2], screen(), Struts::none())
    );
    assert_eq!(l.description(), c.description());
}
