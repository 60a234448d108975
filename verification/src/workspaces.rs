//! The multi-screen aggregate: one shown workspace per physical screen
//! and a hidden pool, with the operations that move focus and windows
//! across them.

use vstd::prelude::*;
use crate::stack::Window;
use crate::workspace::Workspace;
use crate::workspace::WorkspaceView;

verus! {

broadcast use vstd::std_specs::vec::group_vec_axioms, vstd::seq::group_seq_axioms;

/// The views of a sequence of workspaces, elementwise.
pub open spec fn ws_views(s: Seq<Workspace>) -> Seq<WorkspaceView> {
    Seq::new(s.len(), |i: int| s[i]@)
}

/// The multi-screen state: `screens[k]` is shown on physical screen `k`;
/// `hidden` holds the workspaces not currently shown.
#[derive(Debug)]
pub struct Workspaces {
    pub screens: Vec<Workspace>,
    pub hidden: Vec<Workspace>,
}

/// The mathematical content of a `Workspaces`.
#[verifier::ext_equal]
pub struct WorkspacesView {
    pub screens: Seq<WorkspaceView>,
    pub hidden: Seq<WorkspaceView>,
}

impl View for Workspaces {
    type V = WorkspacesView;

    open spec fn view(&self) -> WorkspacesView {
        WorkspacesView { screens: ws_views(self.screens@), hidden: ws_views(self.hidden@) }
    }
}

/// No two of the workspaces share an id.
pub open spec fn distinct_ids(s: Seq<WorkspaceView>) -> bool {
    forall|i: int, j: int| 0 <= i < j < s.len() ==> (#[trigger] s[i]).id != (#[trigger] s[j]).id
}

/// The first position whose workspace carries `tag`, or a negative value.
pub open spec fn find_tag(s: Seq<WorkspaceView>, tag: Seq<char>) -> int
    decreases s.len(),
{
    if s.len() == 0 {
        -1
    } else if s[0].tag == tag {
        0
    } else {
        let r = find_tag(s.skip(1), tag);
        if r < 0 {
            -1
        } else {
            r + 1
        }
    }
}

/// `find_tag` finds exactly the first occurrence.
pub proof fn lemma_find_tag(s: Seq<WorkspaceView>, tag: Seq<char>)
    ensures
        find_tag(s, tag) >= 0 ==> find_tag(s, tag) < s.len() && s[find_tag(s, tag)].tag == tag
            && (forall|j: int| 0 <= j < find_tag(s, tag) ==> (#[trigger] s[j]).tag != tag),
        find_tag(s, tag) < 0 ==> (forall|j: int|
            0 <= j < s.len() ==> (#[trigger] s[j]).tag != tag),
    decreases s.len(),
{
    if s.len() > 0 && s[0].tag != tag {
        lemma_find_tag(s.skip(1), tag);
        assert forall|j: int| 0 <= j < s.len() implies s.skip(1)[j - 1] == s[j] || j == 0 by {}
    }
}

/// The first position whose workspace holds `w`, or a negative value.
pub open spec fn find_win(s: Seq<WorkspaceView>, w: Window) -> int
    decreases s.len(),
{
    if s.len() == 0 {
        -1
    } else if s[0].contains(w) {
        0
    } else {
        let r = find_win(s.skip(1), w);
        if r < 0 {
            -1
        } else {
            r + 1
        }
    }
}

/// `find_win` finds exactly the first occurrence.
pub proof fn lemma_find_win(s: Seq<WorkspaceView>, w: Window)
    ensures
        find_win(s, w) >= 0 ==> find_win(s, w) < s.len() && s[find_win(s, w)].contains(w) && (
        forall|j: int| 0 <= j < find_win(s, w) ==> !(#[trigger] s[j]).contains(w)),
        find_win(s, w) < 0 ==> (forall|j: int|
            0 <= j < s.len() ==> !(#[trigger] s[j]).contains(w)),
    decreases s.len(),
{
    if s.len() > 0 && !s[0].contains(w) {
        lemma_find_win(s.skip(1), w);
        assert forall|j: int| 0 <= j < s.len() implies s.skip(1)[j - 1] == s[j] || j == 0 by {}
    }
}

impl WorkspacesView {
    /// All workspaces, shown first.
    pub open spec fn all(self) -> Seq<WorkspaceView> {
        self.screens + self.hidden
    }

    /// At least one screen, every workspace well formed, and every id held
    /// by exactly one workspace.
    pub open spec fn wf(self) -> bool {
        self.screens.len() > 0 && (forall|i: int|
            0 <= i < self.all().len() ==> (#[trigger] self.all()[i]).wf()) && distinct_ids(
            self.all(),
        )
    }

    /// Whether some workspace holds `w`.
    pub open spec fn contains(self, w: Window) -> bool {
        find_win(self.all(), w) >= 0
    }

    /// Show the hidden workspace carrying `tag` on `screen`, hiding what
    /// that screen showed.  A tag shown on another screen exchanges the
    /// two screens' workspaces; a tag shown on `screen` itself, an unknown
    /// tag or an invalid screen changes nothing.
    pub open spec fn switch_spec(self, screen: int, tag: Seq<char>) -> WorkspacesView {
        if !(0 <= screen < self.screens.len()) {
            self
        } else {
            let h = find_tag(self.hidden, tag);
            if h >= 0 {
                WorkspacesView {
                    screens: self.screens.update(screen, self.hidden[h]),
                    hidden: self.hidden.update(h, self.screens[screen]),
                }
            } else {
                let s2 = find_tag(self.screens, tag);
                if s2 >= 0 && s2 != screen {
                    WorkspacesView {
                        screens: self.screens.update(screen, self.screens[s2]).update(
                            s2,
                            self.screens[screen],
                        ),
                        hidden: self.hidden,
                    }
                } else {
                    self
                }
            }
        }
    }

    /// Move `w` from the workspace holding it to the workspace carrying
    /// `tag`; unchanged when either is missing.
    pub open spec fn move_window_spec(self, w: Window, tag: Seq<char>) -> WorkspacesView {
        let a = self.all();
        let t = find_tag(a, tag);
        let src = find_win(a, w);
        if t < 0 || src < 0 {
            self
        } else {
            let removed = a.update(src, a[src].remove_spec(w));
            let added = removed.update(t, removed[t].add_spec(w));
            WorkspacesView {
                screens: added.take(self.screens.len() as int),
                hidden: added.skip(self.screens.len() as int),
            }
        }
    }

    /// Focus `w` in the workspace holding it, wherever that workspace is
    /// shown or hidden; unchanged when no workspace holds it.
    pub open spec fn focus_window_spec(self, w: Window) -> WorkspacesView {
        let a = self.all();
        let src = find_win(a, w);
        if src < 0 {
            self
        } else {
            let updated = a.update(src, a[src].focus_spec(w));
            WorkspacesView {
                screens: updated.take(self.screens.len() as int),
                hidden: updated.skip(self.screens.len() as int),
            }
        }
    }
}

/// Switching keeps the aggregate well formed: it only permutes the
/// workspaces.
pub proof fn lemma_switch_wf(v: WorkspacesView, screen: int, tag: Seq<char>)
    requires
        v.wf(),
    ensures
        v.switch_spec(screen, tag).wf(),
{
    let r = v.switch_spec(screen, tag);
    let a1 = v.all();
    let a2 = r.all();
    let n1 = v.screens.len() as int;
    if 0 <= screen < n1 {
        let h = find_tag(v.hidden, tag);
        if h >= 0 {
            lemma_find_tag(v.hidden, tag);
            let g = n1 + h;
            assert forall|i: int| 0 <= i < a2.len() implies (#[trigger] a2[i]) == (if i == screen {
                a1[g]
            } else if i == g {
                a1[screen]
            } else {
                a1[i]
            }) by {}
            assert forall|i: int| 0 <= i < a2.len() implies (#[trigger] a2[i]).wf() by {
                if i == screen {
                    assert(a1[g].wf());
                } else if i == g {
                    assert(a1[screen].wf());
                } else {
                    assert(a1[i].wf());
                }
            }
            assert forall|i: int, j: int| 0 <= i < j < a2.len() implies (#[trigger] a2[i]).id != (
            #[trigger] a2[j]).id by {
                let oi = if i == screen {
                    g
                } else if i == g {
                    screen
                } else {
                    i
                };
                let oj = if j == screen {
                    g
                } else if j == g {
                    screen
                } else {
                    j
                };
                assert(a2[i] == a1[oi] && a2[j] == a1[oj]);
                if oi < oj {
                    assert(a1[oi].id != a1[oj].id);
                } else {
                    assert(a1[oj].id != a1[oi].id);
                }
            }
        } else {
            let s2 = find_tag(v.screens, tag);
            if s2 >= 0 && s2 != screen {
                lemma_find_tag(v.screens, tag);
                assert forall|i: int| 0 <= i < a2.len() implies (#[trigger] a2[i]) == (if i
                    == screen {
                    a1[s2]
                } else if i == s2 {
                    a1[screen]
                } else {
                    a1[i]
                }) by {}
                assert forall|i: int| 0 <= i < a2.len() implies (#[trigger] a2[i]).wf() by {
                    if i == screen {
                        assert(a1[s2].wf());
                    } else if i == s2 {
                        assert(a1[screen].wf());
                    } else {
                        assert(a1[i].wf());
                    }
                }
                assert forall|i: int, j: int| 0 <= i < j < a2.len() implies (#[trigger] a2[i]).id
                    != (#[trigger] a2[j]).id by {
                    let oi = if i == screen {
                        s2
                    } else if i == s2 {
                        screen
                    } else {
                        i
                    };
                    let oj = if j == screen {
                        s2
                    } else if j == s2 {
                        screen
                    } else {
                        j
                    };
                    assert(a2[i] == a1[oi] && a2[j] == a1[oj]);
                    if oi < oj {
                        assert(a1[oi].id != a1[oj].id);
                    } else {
                        assert(a1[oj].id != a1[oi].id);
                    }
                }
            }
        }
    }
}

/// Moving a window keeps the aggregate well formed: tags, ids and layouts
/// are untouched.
pub proof fn lemma_move_wf(v: WorkspacesView, w: Window, tag: Seq<char>)
    requires
        v.wf(),
    ensures
        v.move_window_spec(w, tag).wf(),
{
    let r = v.move_window_spec(w, tag);
    let a1 = v.all();
    let a2 = r.all();
    let t = find_tag(a1, tag);
    let src = find_win(a1, w);
    if t >= 0 && src >= 0 {
        lemma_find_tag(a1, tag);
        lemma_find_win(a1, w);
        assert forall|i: int| 0 <= i < a2.len() implies (#[trigger] a2[i]).id == a1[i].id && a2[
            i
        ].wf() by {
            assert(a1[i].wf());
        }
        assert forall|i: int, j: int| 0 <= i < j < a2.len() implies (#[trigger] a2[i]).id != (
        #[trigger] a2[j]).id by {
            assert(a1[i].id != a1[j].id);
        }
    }
}

/// Focusing a window keeps the aggregate well formed.
pub proof fn lemma_focus_wf(v: WorkspacesView, w: Window)
    requires
        v.wf(),
    ensures
        v.focus_window_spec(w).wf(),
{
    let r = v.focus_window_spec(w);
    let a1 = v.all();
    let a2 = r.all();
    let src = find_win(a1, w);
    if src >= 0 {
        lemma_find_win(a1, w);
        assert forall|i: int| 0 <= i < a2.len() implies (#[trigger] a2[i]).id == a1[i].id && a2[
            i
        ].wf() by {
            assert(a1[i].wf());
        }
        assert forall|i: int, j: int| 0 <= i < j < a2.len() implies (#[trigger] a2[i]).id != (
        #[trigger] a2[j]).id by {
            assert(a1[i].id != a1[j].id);
        }
    }
}

/// An elementwise copy of a list of workspaces.
fn copy_ws_vec(v: &Vec<Workspace>) -> (r: Vec<Workspace>)
    ensures
        r@.len() == v@.len(),
        forall|i: int| 0 <= i < v@.len() ==> (#[trigger] r@[i])@ == v@[i]@,
{
    let mut r: Vec<Workspace> = Vec::new();
    let mut i: usize = 0;
    while i < v.len()
        invariant
            i <= v@.len(),
            r@.len() == i,
            forall|j: int| 0 <= j < i ==> (#[trigger] r@[j])@ == v@[j]@,
        decreases v@.len() - i,
    {
        r.push(v[i].copied());
        i += 1;
    }
    r
}

/// The list with the workspace at `at` replaced by `w`, all others
/// copied.
fn replaced(v: &Vec<Workspace>, at: usize, w: Workspace) -> (r: Vec<Workspace>)
    requires
        at < v@.len(),
    ensures
        r@.len() == v@.len(),
        forall|i: int| 0 <= i < v@.len() && i != at ==> (#[trigger] r@[i])@ == v@[i]@,
        r@[at as int]@ == w@,
{
    proof {
        vstd::std_specs::vec::axiom_spec_len(v);
    }
    let mut r: Vec<Workspace> = Vec::new();
    let mut i: usize = 0;
    while i < at
        invariant
            i <= at < v@.len(),
            r@.len() == i,
            forall|j: int| 0 <= j < i ==> (#[trigger] r@[j])@ == v@[j]@,
        decreases at - i,
    {
        r.push(v[i].copied());
        i += 1;
    }
    let ghost wv = w@;
    r.push(w);
    let mut i: usize = at + 1;
    while i < v.len()
        invariant
            at < i <= v@.len(),
            r@.len() == i,
            r@[at as int]@ == wv,
            forall|j: int| 0 <= j < i && j != at ==> (#[trigger] r@[j])@ == v@[j]@,
        decreases v@.len() - i,
    {
        r.push(v[i].copied());
        i += 1;
    }
    r
}

/// The position of the first workspace in `v` carrying `tag`.
fn find_tag_exec(v: &Vec<Workspace>, tag: &String) -> (r: Option<usize>)
    ensures
        match r {
            Some(i) => i == find_tag(ws_views(v@), tag@),
            None => find_tag(ws_views(v@), tag@) < 0,
        },
{
    let mut i: usize = 0;
    while i < v.len()
        invariant
            i <= v@.len(),
            forall|j: int| 0 <= j < i ==> (#[trigger] ws_views(v@)[j]).tag != tag@,
        decreases v@.len() - i,
    {
        if v[i].tag == *tag {
            proof {
                lemma_find_tag(ws_views(v@), tag@);
                let s = ws_views(v@);
                let fi = find_tag(s, tag@);
                assert(s[i as int].tag == tag@);
                assert(fi >= 0) by {
                    if fi < 0 {
                        assert(s[i as int].tag != tag@);
                    }
                }
                assert(fi >= i) by {
                    if 0 <= fi < i {
                        assert(s[fi].tag != tag@);
                    }
                }
                assert(fi == i) by {
                    if fi > i {
                        assert(s[i as int].tag != tag@);
                    }
                }
            }
            return Some(i);
        }
        i += 1;
    }
    proof {
        lemma_find_tag(ws_views(v@), tag@);
        let s = ws_views(v@);
        let fi = find_tag(s, tag@);
        assert(fi < 0) by {
            if fi >= 0 {
                assert(s[fi].tag != tag@);
            }
        }
    }
    None
}

/// The position of the first workspace in `v` holding `w`.
fn find_win_exec(v: &Vec<Workspace>, w: Window) -> (r: Option<usize>)
    ensures
        match r {
            Some(i) => i == find_win(ws_views(v@), w),
            None => find_win(ws_views(v@), w) < 0,
        },
{
    let mut i: usize = 0;
    while i < v.len()
        invariant
            i <= v@.len(),
            forall|j: int| 0 <= j < i ==> !(#[trigger] ws_views(v@)[j]).contains(w),
        decreases v@.len() - i,
    {
        if v[i].contains(w) {
            proof {
                lemma_find_win(ws_views(v@), w);
                let s = ws_views(v@);
                let fi = find_win(s, w);
                assert(s[i as int].contains(w));
                assert(fi >= 0) by {
                    if fi < 0 {
                        assert(!s[i as int].contains(w));
                    }
                }
                assert(fi >= i) by {
                    if 0 <= fi < i {
                        assert(!s[fi].contains(w));
                    }
                }
                assert(fi == i) by {
                    if fi > i {
                        assert(!s[i as int].contains(w));
                    }
                }
            }
            return Some(i);
        }
        i += 1;
    }
    proof {
        lemma_find_win(ws_views(v@), w);
        let s = ws_views(v@);
        let fi = find_win(s, w);
        assert(fi < 0) by {
            if fi >= 0 {
                assert(!s[fi].contains(w));
            }
        }
    }
    None
}

impl Workspaces {
    pub fn new(screens: Vec<Workspace>, hidden: Vec<Workspace>) -> (r: Workspaces)
        requires
            screens@.len() > 0,
        ensures
            r@ == (WorkspacesView { screens: ws_views(screens@), hidden: ws_views(hidden@) }),
    {
        Workspaces { screens, hidden }
    }

    /// An independent copy with the same mathematical content.
    pub fn copied(&self) -> (r: Workspaces)
        ensures
            r@ == self@,
    {
        let r = Workspaces {
            screens: copy_ws_vec(&self.screens),
            hidden: copy_ws_vec(&self.hidden),
        };
        proof {
            assert(ws_views(r.screens@) =~= ws_views(self.screens@));
            assert(ws_views(r.hidden@) =~= ws_views(self.hidden@));
            assert(r@ =~= self@);
        }
        r
    }

    /// Show the hidden workspace carrying `tag` on `screen`; a tag shown
    /// on another screen exchanges the two screens' workspaces; otherwise
    /// nothing changes.
    pub fn switch_to_workspace(&self, screen: usize, tag: &String) -> (r: Workspaces)
        requires
            self@.wf(),
        ensures
            r@ == self@.switch_spec(screen as int, tag@),
            r@.wf(),
    {
        proof {
            lemma_switch_wf(self@, screen as int, tag@);
        }
        if screen >= self.screens.len() {
            let r = self.copied();
            proof {
                assert(r@ =~= self@.switch_spec(screen as int, tag@));
            }
            return r;
        }
        match find_tag_exec(&self.hidden, tag) {
            Some(h) => {
                proof {
                    lemma_find_tag(ws_views(self.hidden@), tag@);
                }
                let shown = self.hidden[h].copied();
                let put_away = self.screens[screen].copied();
                let r = Workspaces {
                    screens: replaced(&self.screens, screen, shown),
                    hidden: replaced(&self.hidden, h, put_away),
                };
                proof {
                    assert(ws_views(r.screens@) =~= self@.screens.update(
                        screen as int,
                        self@.hidden[h as int],
                    ));
                    assert(ws_views(r.hidden@) =~= self@.hidden.update(
                        h as int,
                        self@.screens[screen as int],
                    ));
                    assert(r@ =~= self@.switch_spec(screen as int, tag@));
                }
                r
            },
            None => match find_tag_exec(&self.screens, tag) {
                Some(s2) => {
                    proof {
                        lemma_find_tag(ws_views(self.screens@), tag@);
                    }
                    if s2 != screen {
                        let a = self.screens[s2].copied();
                        let b = self.screens[screen].copied();
                        let v1 = replaced(&self.screens, screen, a);
                        let v2 = replaced(&v1, s2, b);
                        let r = Workspaces { screens: v2, hidden: copy_ws_vec(&self.hidden) };
                        proof {
                            assert(ws_views(r.screens@) =~= self@.screens.update(
                                screen as int,
                                self@.screens[s2 as int],
                            ).update(s2 as int, self@.screens[screen as int]));
                            assert(ws_views(r.hidden@) =~= self@.hidden);
                            assert(r@ =~= self@.switch_spec(screen as int, tag@));
                        }
                        r
                    } else {
                        let r = self.copied();
                        proof {
                            assert(r@ =~= self@.switch_spec(screen as int, tag@));
                        }
                        r
                    }
                },
                None => {
                    let r = self.copied();
                    proof {
                        assert(r@ =~= self@.switch_spec(screen as int, tag@));
                    }
                    r
                },
            },
        }
    }

    /// Find the workspace holding `window` and the one carrying `tag`,
    /// expressed as positions in the shown-then-hidden order.
    fn locate(&self, window: Window, tag: &String) -> (r: (Option<usize>, Option<usize>))
        requires
            self@.all().len() <= usize::MAX,
        ensures
            match r.0 {
                Some(i) => i == find_win(self@.all(), window),
                None => find_win(self@.all(), window) < 0,
            },
            match r.1 {
                Some(i) => i == find_tag(self@.all(), tag@),
                None => find_tag(self@.all(), tag@) < 0,
            },
    {
        proof {
            assert(self@.all().take(self.screens@.len() as int) =~= ws_views(self.screens@));
            assert(self@.all().skip(self.screens@.len() as int) =~= ws_views(self.hidden@));
        }
        let n1 = self.screens.len();
        let win_pos = match find_win_exec(&self.screens, window) {
            Some(i) => {
                proof {
                    lemma_locate_concat_win(self@.all(), n1 as int, window);
                }
                Some(i)
            },
            None => match find_win_exec(&self.hidden, window) {
                Some(j) => {
                    proof {
                        lemma_find_win(ws_views(self.hidden@), window);
                        lemma_locate_concat_win(self@.all(), n1 as int, window);
                    }
                    Some(n1 + j)
                },
                None => {
                    proof {
                        lemma_locate_concat_win(self@.all(), n1 as int, window);
                    }
                    None
                },
            },
        };
        let tag_pos = match find_tag_exec(&self.screens, tag) {
            Some(i) => {
                proof {
                    lemma_locate_concat_tag(self@.all(), n1 as int, tag@);
                }
                Some(i)
            },
            None => match find_tag_exec(&self.hidden, tag) {
                Some(j) => {
                    proof {
                        lemma_find_tag(ws_views(self.hidden@), tag@);
                        lemma_locate_concat_tag(self@.all(), n1 as int, tag@);
                    }
                    Some(n1 + j)
                },
                None => {
                    proof {
                        lemma_locate_concat_tag(self@.all(), n1 as int, tag@);
                    }
                    None
                },
            },
        };
        (win_pos, tag_pos)
    }

    /// Move `window` to the workspace carrying `tag`; unchanged when the
    /// window or the tag is not found.
    pub fn move_window_to_workspace(&self, window: Window, tag: &String) -> (r: Workspaces)
        requires
            self@.wf(),
            self@.all().len() <= usize::MAX,
        ensures
            r@ == self@.move_window_spec(window, tag@),
            r@.wf(),
    {
        proof {
            lemma_move_wf(self@, window, tag@);
        }
        let (win_pos, tag_pos) = self.locate(window, tag);
        match (win_pos, tag_pos) {
            (Some(src), Some(t)) => {
                proof {
                    lemma_find_win(self@.all(), window);
                    lemma_find_tag(self@.all(), tag@);
                }
                let n1 = self.screens.len();
                let mut screens: Vec<Workspace> = Vec::new();
                let mut i: usize = 0;
                let ghost a = self@.all();
                let ghost removed = a.update(src as int, a[src as int].remove_spec(window));
                let ghost added = removed.update(
                    t as int,
                    removed[t as int].add_spec(window),
                );
                proof {
                    assert(a.take(n1 as int) =~= ws_views(self.screens@));
                    assert(a.skip(n1 as int) =~= ws_views(self.hidden@));
                }
                while i < n1
                    invariant
                        i <= n1 == self.screens@.len(),
                        screens@.len() == i,
                        a == self@.all(),
                        removed == a.update(src as int, a[src as int].remove_spec(window)),
                        added == removed.update(t as int, removed[t as int].add_spec(window)),
                        src < a.len() && t < a.len(),
                        forall|j: int| 0 <= j < i ==> (#[trigger] screens@[j])@ == added[j],
                        forall|j: int| 0 <= j < n1 ==> a[j] == (#[trigger] self.screens@[j])@,
                    decreases n1 - i,
                {
                    let w1 = if i == src {
                        self.screens[i].remove(window)
                    } else {
                        self.screens[i].copied()
                    };
                    let w2 = if i == t {
                        w1.add(window)
                    } else {
                        w1
                    };
                    screens.push(w2);
                    i += 1;
                }
                let mut hidden: Vec<Workspace> = Vec::new();
                let mut i: usize = 0;
                let nh = self.hidden.len();
                while i < nh
                    invariant
                        i <= nh == self.hidden@.len(),
                        hidden@.len() == i,
                        a == self@.all(),
                        removed == a.update(src as int, a[src as int].remove_spec(window)),
                        added == removed.update(t as int, removed[t as int].add_spec(window)),
                        src < a.len() && t < a.len(),
                        n1 == self.screens@.len(),
                        a.len() == n1 + nh,
                        a.len() <= usize::MAX,
                        forall|j: int| 0 <= j < i ==> (#[trigger] hidden@[j])@ == added[n1 + j],
                        forall|j: int| 0 <= j < nh ==> a[n1 + j] == (
                        #[trigger] self.hidden@[j])@,
                    decreases nh - i,
                {
                    let w1 = if n1 + i == src {
                        self.hidden[i].remove(window)
                    } else {
                        self.hidden[i].copied()
                    };
                    let w2 = if n1 + i == t {
                        w1.add(window)
                    } else {
                        w1
                    };
                    hidden.push(w2);
                    i += 1;
                }
                let r = Workspaces { screens, hidden };
                proof {
                    assert(ws_views(r.screens@) =~= added.take(n1 as int));
                    assert(ws_views(r.hidden@) =~= added.skip(n1 as int));
                    assert(r@ =~= self@.move_window_spec(window, tag@));
                }
                r
            },
            _ => {
                let r = self.copied();
                proof {
                    assert(r@ =~= self@.move_window_spec(window, tag@));
                }
                r
            },
        }
    }

    /// Focus `window` in whichever workspace holds it; which screen shows
    /// what does not change.
    pub fn focus_window(&self, window: Window) -> (r: Workspaces)
        requires
            self@.wf(),
            self@.all().len() <= usize::MAX,
        ensures
            r@ == self@.focus_window_spec(window),
            r@.wf(),
    {
        proof {
            lemma_focus_wf(self@, window);
            assert(self@.all().take(self.screens@.len() as int) =~= ws_views(self.screens@));
            assert(self@.all().skip(self.screens@.len() as int) =~= ws_views(self.hidden@));
        }
        let n1 = self.screens.len();
        let found = match find_win_exec(&self.screens, window) {
            Some(i) => {
                proof {
                    lemma_locate_concat_win(self@.all(), n1 as int, window);
                }
                Some(i)
            },
            None => match find_win_exec(&self.hidden, window) {
                Some(j) => {
                    proof {
                        lemma_find_win(ws_views(self.hidden@), window);
                        lemma_locate_concat_win(self@.all(), n1 as int, window);
                    }
                    Some(n1 + j)
                },
                None => {
                    proof {
                        lemma_locate_concat_win(self@.all(), n1 as int, window);
                    }
                    None
                },
            },
        };
        match found {
            Some(src) => {
                proof {
                    lemma_find_win(self@.all(), window);
                }
                let r = if src < n1 {
                    let w2 = self.screens[src].focus_window(window);
                    Workspaces {
                        screens: replaced(&self.screens, src, w2),
                        hidden: copy_ws_vec(&self.hidden),
                    }
                } else {
                    let w2 = self.hidden[src - n1].focus_window(window);
                    Workspaces {
                        screens: copy_ws_vec(&self.screens),
                        hidden: replaced(&self.hidden, src - n1, w2),
                    }
                };
                proof {
                    let a = self@.all();
                    let updated = a.update(src as int, a[src as int].focus_spec(window));
                    assert(ws_views(r.screens@) =~= updated.take(n1 as int));
                    assert(ws_views(r.hidden@) =~= updated.skip(n1 as int));
                    assert(r@ =~= self@.focus_window_spec(window));
                }
                r
            },
            None => {
                let r = self.copied();
                proof {
                    assert(r@ =~= self@.focus_window_spec(window));
                }
                r
            },
        }
    }
}

/// Where the first workspace holding `w` sits in a concatenation, in
/// terms of where it sits in each part.
pub proof fn lemma_locate_concat_win(a: Seq<WorkspaceView>, n1: int, w: Window)
    requires
        0 <= n1 <= a.len(),
    ensures
        find_win(a.take(n1), w) >= 0 ==> find_win(a, w) == find_win(a.take(n1), w),
        find_win(a.take(n1), w) < 0 && find_win(a.skip(n1), w) >= 0 ==> find_win(a, w) == n1
            + find_win(a.skip(n1), w),
        find_win(a.take(n1), w) < 0 && find_win(a.skip(n1), w) < 0 ==> find_win(a, w) < 0,
{
    lemma_find_win(a, w);
    lemma_find_win(a.take(n1), w);
    lemma_find_win(a.skip(n1), w);
    let fa = find_win(a, w);
    let ft = find_win(a.take(n1), w);
    let fs = find_win(a.skip(n1), w);
    if ft >= 0 {
        assert(a[ft] == a.take(n1)[ft]);
        assert(fa >= 0) by {
            if fa < 0 {
                assert(!a[ft].contains(w));
            }
        }
        assert(fa >= ft) by {
            if fa < ft {
                assert(!a.take(n1)[fa].contains(w));
            }
        }
        assert(fa == ft) by {
            if fa > ft {
                assert(!a[ft].contains(w));
            }
        }
    } else if fs >= 0 {
        assert(a[n1 + fs] == a.skip(n1)[fs]);
        assert(fa >= 0) by {
            if fa < 0 {
                assert(!a[n1 + fs].contains(w));
            }
        }
        assert forall|j: int| 0 <= j < n1 + fs implies !(#[trigger] a[j]).contains(w) by {
            if j < n1 {
                assert(a[j] == a.take(n1)[j]);
            } else {
                assert(a[j] == a.skip(n1)[j - n1]);
            }
        }
        assert(fa >= n1 + fs) by {
            if fa < n1 + fs {
                assert(!a[fa].contains(w));
            }
        }
        assert(fa == n1 + fs) by {
            if fa > n1 + fs {
                assert(!a[n1 + fs].contains(w));
            }
        }
    } else {
        assert(fa < 0) by {
            if fa >= 0 {
                if fa < n1 {
                    assert(a[fa] == a.take(n1)[fa]);
                    assert(!a.take(n1)[fa].contains(w));
                } else {
                    assert(a[fa] == a.skip(n1)[fa - n1]);
                    assert(!a.skip(n1)[fa - n1].contains(w));
                }
            }
        }
    }
}

/// Where the first workspace carrying `tag` sits in a concatenation, in
/// terms of where it sits in each part.
pub proof fn lemma_locate_concat_tag(a: Seq<WorkspaceView>, n1: int, tag: Seq<char>)
    requires
        0 <= n1 <= a.len(),
    ensures
        find_tag(a.take(n1), tag) >= 0 ==> find_tag(a, tag) == find_tag(a.take(n1), tag),
        find_tag(a.take(n1), tag) < 0 && find_tag(a.skip(n1), tag) >= 0 ==> find_tag(a, tag)
            == n1 + find_tag(a.skip(n1), tag),
        find_tag(a.take(n1), tag) < 0 && find_tag(a.skip(n1), tag) < 0 ==> find_tag(a, tag) < 0,
{
    lemma_find_tag(a, tag);
    lemma_find_tag(a.take(n1), tag);
    lemma_find_tag(a.skip(n1), tag);
    let fa = find_tag(a, tag);
    let ft = find_tag(a.take(n1), tag);
    let fs = find_tag(a.skip(n1), tag);
    if ft >= 0 {
        assert(a[ft] == a.take(n1)[ft]);
        assert(fa >= 0) by {
            if fa < 0 {
                assert(a[ft].tag != tag);
            }
        }
        assert(fa >= ft) by {
            if fa < ft {
                assert(a.take(n1)[fa].tag != tag);
            }
        }
        assert(fa == ft) by {
            if fa > ft {
                assert(a[ft].tag != tag);
            }
        }
    } else if fs >= 0 {
        assert(a[n1 + fs] == a.skip(n1)[fs]);
        assert(fa >= 0) by {
            if fa < 0 {
                assert(a[n1 + fs].tag != tag);
            }
        }
        assert forall|j: int| 0 <= j < n1 + fs implies (#[trigger] a[j]).tag != tag by {
            if j < n1 {
                assert(a[j] == a.take(n1)[j]);
            } else {
                assert(a[j] == a.skip(n1)[j - n1]);
            }
        }
        assert(fa >= n1 + fs) by {
            if fa < n1 + fs {
                assert(a[fa].tag != tag);
            }
        }
        assert(fa == n1 + fs) by {
            if fa > n1 + fs {
                assert(a[n1 + fs].tag != tag);
            }
        }
    } else {
        assert(fa < 0) by {
            if fa >= 0 {
                if fa < n1 {
                    assert(a[fa] == a.take(n1)[fa]);
                    assert(a.take(n1)[fa].tag != tag);
                } else {
                    assert(a[fa] == a.skip(n1)[fa - n1]);
                    assert(a.skip(n1)[fa - n1].tag != tag);
                }
            }
        }
    }
}

} // verus!
