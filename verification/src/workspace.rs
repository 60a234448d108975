//! One workspace: a tag, a layout instance, and an optional window stack.

use vstd::prelude::*;
use crate::geometry::Rectangle;
use crate::geometry::Struts;
use crate::layout::Layout;
use crate::layout::LayoutView;
use crate::layout::apply_spec;
use crate::layout::border_spec;
use crate::layout::handle_spec;
use crate::messages::LayoutMessage;
use crate::stack::Stack;
use crate::stack::StackView;
use crate::stack::Window;
use crate::stack::opt_stack_seq;
use crate::stack::opt_stack_view;

verus! {

/// A named, independently laid-out collection of windows.
#[derive(Debug)]
pub struct Workspace {
    pub id: u32,
    pub tag: String,
    pub layout: Layout,
    pub stack: Option<Stack>,
}

/// The mathematical content of a `Workspace`.
#[verifier::ext_equal]
pub struct WorkspaceView {
    pub id: u32,
    pub tag: Seq<char>,
    pub layout: LayoutView,
    pub stack: Option<StackView>,
}

impl View for Workspace {
    type V = WorkspaceView;

    open spec fn view(&self) -> WorkspaceView {
        WorkspaceView {
            id: self.id,
            tag: self.tag@,
            layout: self.layout@,
            stack: opt_stack_view(self.stack),
        }
    }
}

impl WorkspaceView {
    /// The workspace's layout is well formed.
    pub open spec fn wf(self) -> bool {
        self.layout.wf()
    }

    /// Whether the workspace holds `w`.
    pub open spec fn contains(self, w: Window) -> bool {
        match self.stack {
            Some(s) => s.contains(w),
            None => false,
        }
    }

    /// The windows in visible order; empty without a stack.
    pub open spec fn windows(self) -> Seq<Window> {
        opt_stack_seq(self.stack)
    }

    /// The workspace with `w` inserted as the focus; unchanged when it
    /// already holds `w`.
    pub open spec fn add_spec(self, w: Window) -> WorkspaceView {
        if self.contains(w) {
            self
        } else {
            WorkspaceView {
                stack: Some(
                    match self.stack {
                        Some(s) => s.insert(w),
                        None => StackView { focus: w, up: Seq::empty(), down: Seq::empty() },
                    },
                ),
                ..self
            }
        }
    }

    /// The workspace with `w` removed; the stack disappears with its last
    /// window.
    pub open spec fn remove_spec(self, w: Window) -> WorkspaceView {
        WorkspaceView {
            stack: match self.stack {
                Some(s) => s.filter_spec(keep_other_than(w)),
                None => None,
            },
            ..self
        }
    }

    /// The workspace after its layout received `msg`: the layout is
    /// replaced when it handles the message, else nothing changes.
    pub open spec fn send_spec(self, msg: LayoutMessage) -> WorkspaceView {
        match handle_spec(self.layout, msg, self.stack) {
            Some(l2) => WorkspaceView { layout: l2, ..self },
            None => self,
        }
    }

    /// The workspace with the focus given to `w`; unchanged when `w` is
    /// not held.
    pub open spec fn focus_spec(self, w: Window) -> WorkspaceView {
        WorkspaceView {
            stack: match self.stack {
                Some(s) => Some(s.focus_window_spec(w)),
                None => None,
            },
            ..self
        }
    }
}

/// The predicate that keeps every window but `w`.
pub open spec fn keep_other_than(w: Window) -> spec_fn(Window) -> bool {
    |x: Window| x != w
}

/// A workspace holds a window right after adding it.
pub proof fn lemma_add_contains(v: WorkspaceView, w: Window)
    ensures
        v.add_spec(w).contains(w),
{
    if !v.contains(w) {
        match v.stack {
            Some(s) => {
                let r = s.insert(w);
                assert(r.seq()[r.up.len() as int] == w);
                assert(r.seq().contains(w));
            },
            None => {
                let r = StackView { focus: w, up: Seq::empty(), down: Seq::empty() };
                assert(r.seq()[0] == w);
                assert(r.seq().contains(w));
            },
        }
    }
}

/// A workspace no longer holds a window right after removing it.
pub proof fn lemma_remove_not_contains(v: WorkspaceView, w: Window)
    ensures
        !v.remove_spec(w).contains(w),
{
    match v.stack {
        Some(s) => {
            crate::stack::lemma_filter_rejects(s, keep_other_than(w), w);
        },
        None => {},
    }
}

impl Workspace {
    pub fn new(id: u32, tag: String, layout: Layout, stack: Option<Stack>) -> (r: Workspace)
        ensures
            r@ == (WorkspaceView {
                id,
                tag: tag@,
                layout: layout@,
                stack: opt_stack_view(stack),
            }),
    {
        Workspace { id, tag, layout, stack }
    }

    /// An independent copy with the same mathematical content.
    pub fn copied(&self) -> (r: Workspace)
        ensures
            r@ == self@,
    {
        let stack = match &self.stack {
            Some(s) => Some(s.copied()),
            None => None,
        };
        let r = Workspace {
            id: self.id,
            tag: self.tag.clone(),
            layout: self.layout.copy(),
            stack,
        };
        proof {
            assert(r@ =~= self@);
        }
        r
    }

    /// True iff the workspace holds `window`; false without a stack.
    pub fn contains(&self, window: Window) -> (r: bool)
        ensures
            r == self@.contains(window),
    {
        match &self.stack {
            Some(s) => s.contains(window),
            None => false,
        }
    }

    /// Insert `window` as the new focus; unchanged when already held.
    pub fn add(&self, window: Window) -> (r: Workspace)
        ensures
            r@ == self@.add_spec(window),
    {
        if self.contains(window) {
            let r = self.copied();
            proof {
                assert(r@ =~= self@.add_spec(window));
            }
            r
        } else {
            let stack = match &self.stack {
                Some(s) => s.insert(window),
                None => Stack::new(window, Vec::new(), Vec::new()),
            };
            let r = Workspace {
                id: self.id,
                tag: self.tag.clone(),
                layout: self.layout.copy(),
                stack: Some(stack),
            };
            proof {
                match self@.stack {
                    Some(s) => {
                        assert(r@ =~= self@.add_spec(window));
                    },
                    None => {
                        assert(stack@ =~= (StackView {
                            focus: window,
                            up: Seq::empty(),
                            down: Seq::empty(),
                        }));
                        assert(r@ =~= self@.add_spec(window));
                    },
                }
            }
            r
        }
    }

    /// Remove `window`; the stack disappears with its last window, and a
    /// removed focus moves to the nearest survivor.
    pub fn remove(&self, window: Window) -> (r: Workspace)
        ensures
            r@ == self@.remove_spec(window),
    {
        let keep_other = (|x: Window| -> (keep: bool)
            ensures
                keep == (x != window),
            { x != window });
        let stack = match &self.stack {
            Some(s) => s.filter(keep_other, Ghost(keep_other_than(window))),
            None => None,
        };
        let r = Workspace {
            id: self.id,
            tag: self.tag.clone(),
            layout: self.layout.copy(),
            stack,
        };
        proof {
            assert(r@ =~= self@.remove_spec(window));
        }
        r
    }

    /// Give the focus to `window`; unchanged when not held.
    pub fn focus_window(&self, window: Window) -> (r: Workspace)
        ensures
            r@ == self@.focus_spec(window),
    {
        let stack = match &self.stack {
            Some(s) => Some(s.focus_window(window)),
            None => None,
        };
        let r = Workspace {
            id: self.id,
            tag: self.tag.clone(),
            layout: self.layout.copy(),
            stack,
        };
        proof {
            assert(r@ =~= self@.focus_spec(window));
        }
        r
    }

    /// Forward `msg` to the layout; the layout is replaced when it handles
    /// the message, else an unchanged copy is returned.
    pub fn send_message(&self, msg: LayoutMessage) -> (r: Workspace)
        requires
            self@.wf(),
        ensures
            r@ == self@.send_spec(msg),
            r@.wf(),
    {
        match self.layout.handle_message(msg, &self.stack) {
            Some(l2) => {
                let stack = match &self.stack {
                    Some(s) => Some(s.copied()),
                    None => None,
                };
                let r = Workspace { id: self.id, tag: self.tag.clone(), layout: l2, stack };
                proof {
                    assert(r@ =~= self@.send_spec(msg));
                }
                r
            },
            None => {
                let r = self.copied();
                proof {
                    assert(r@ =~= self@.send_spec(msg));
                }
                r
            },
        }
    }

    /// The placements of this workspace's windows on `screen`: one per
    /// window, in stack order, as the layout's `apply_spec` describes.
    pub fn apply_layout(&self, screen: Rectangle, struts: Struts) -> (out: Vec<
        (Window, Rectangle),
    >)
        requires
            self@.wf(),
            screen.wf(),
        ensures
            out@ == apply_spec(self@.layout, self@.windows(), screen, struts),
    {
        let ws = match &self.stack {
            Some(s) => s.integrate(),
            None => Vec::new(),
        };
        proof {
            assert(ws@ =~= self@.windows());
        }
        self.layout.apply(&ws, screen, struts)
    }

    /// The placements together with the border width the window-system
    /// collaborator should draw: the layout's prescribed width, or
    /// `default_border` when it prescribes none.
    pub fn apply_layout_with_borders(
        &self,
        screen: Rectangle,
        struts: Struts,
        default_border: u32,
    ) -> (out: Vec<(Window, Rectangle, u32)>)
        requires
            self@.wf(),
            screen.wf(),
        ensures
            out@.len() == apply_spec(self@.layout, self@.windows(), screen, struts).len(),
            forall|i: int|
                0 <= i < out@.len() ==> #[trigger] out@[i] == (
                    apply_spec(self@.layout, self@.windows(), screen, struts)[i].0,
                    apply_spec(self@.layout, self@.windows(), screen, struts)[i].1,
                    match border_spec(self@.layout) {
                        Some(b) => b,
                        None => default_border,
                    },
                ),
    {
        let base = self.apply_layout(screen, struts);
        let border = match self.border_width() {
            Some(b) => b,
            None => default_border,
        };
        let mut out: Vec<(Window, Rectangle, u32)> = Vec::new();
        let mut i: usize = 0;
        while i < base.len()
            invariant
                i <= base@.len(),
                out@.len() == i,
                forall|j: int| 0 <= j < i ==> #[trigger] out@[j] == (
                    base@[j].0,
                    base@[j].1,
                    border,
                ),
            decreases base@.len() - i,
        {
            let (w, rect) = base[i];
            out.push((w, rect, border));
            i += 1;
        }
        out
    }

    /// The border width the layout prescribes for this workspace, if any.
    pub fn border_width(&self) -> (r: Option<u32>)
        requires
            self@.wf(),
        ensures
            r == border_spec(self@.layout),
    {
        self.layout.border_width()
    }
}

} // verus!
