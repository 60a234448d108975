use wtftw_core::layout::FullLayout;
use wtftw_core::stack::Stack;
use wtftw_core::workspace::Workspace;
use wtftw_core::workspaces::Workspaces;

fn ws(id: u32, tag: &str, stack: Option<Stack>) -> Workspace {
    Workspace::new(id, String::from(tag), FullLayout::new(), stack)
}

fn sample() -> Workspaces {
    Workspaces::new(
        vec![ws(0, "term", Some(Stack::new(10, vec![], vec![11])))],
        vec![ws(1, "web", Some(Stack::new(20, vec![], vec![]))), ws(2, "code", None)],
    )
}

#[test]
fn switch_shows_hidden_workspace() {
    let w = sample();
    let r = w.switch_to_workspace(0, &String::from("web"));
    assert_eq!(r.screens[0].tag, "web");
    assert_eq!(r.hidden[0].tag, "term");
    assert_eq!(r.hidden[1].tag, "code");
    // the moved-away workspace keeps its windows
    assert!(r.hidden[0].contains(10) && r.hidden[0].contains(11));
}

#[test]
fn switch_to_shown_tag_is_a_no_op() {
    let w = sample();
    let r = w.switch_to_workspace(0, &String::from("term"));
    assert_eq!(r.screens[0].tag, "term");
    assert_eq!(r.hidden.len(), 2);
    // an unknown tag changes nothing either
    let r2 = w.switch_to_workspace(0, &String::from("mail"));
    assert_eq!(r2.screens[0].tag, "term");
}

#[test]
fn switch_swaps_two_screens() {
    let w = Workspaces::new(
        vec![ws(0, "term", None), ws(1, "web", None)],
        vec![ws(2, "code", None)],
    );
    let r = w.switch_to_workspace(0, &String::from("web"));
    assert_eq!(r.screens[0].tag, "web");
    assert_eq!(r.screens[1].tag, "term");
    assert_eq!(r.hidden[0].tag, "code");
}

#[test]
fn move_window_changes_its_workspace() {
    let w = sample();
    let r = w.move_window_to_workspace(11, &String::from("web"));
    assert!(!r.screens[0].contains(11));
    assert!(r.hidden[0].contains(11));
    assert!(r.hidden[0].contains(20));
    // a missing window or tag changes nothing
    let r2 = w.move_window_to_workspace(99, &String::from("web"));
    assert!(r2.screens[0].contains(11));
    let r3 = w.move_window_to_workspace(11, &String::from("mail"));
    assert!(r3.screens[0].contains(11));
}

#[test]
fn focus_window_reaches_hidden_workspaces() {
    let w = Workspaces::new(
        vec![ws(0, "term", Some(Stack::new(10, vec![], vec![11])))],
        vec![ws(1, "web", Some(Stack::new(20, vec![], vec![21])))],
    );
    let r = w.focus_window(21);
    // the hidden workspace now focuses 21, and screens are untouched
    assert_eq!(r.screens[0].tag, "term");
    assert_eq!(r.hidden[0].stack.as_ref().expect("stack kept").focus, 21);
    // focusing a shown window moves the focus there
    let r2 = w.focus_window(11);
    assert_eq!(r2.screens[0].stack.as_ref().expect("stack kept").focus, 11);
    // an unknown window changes nothing
    let r3 = w.focus_window(99);
    assert_eq!(r3.screens[0].stack.as_ref().expect("stack kept").focus, 10);
}
