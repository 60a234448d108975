//! The focus zipper: an ordered, focus-centered collection of windows.

use vstd::prelude::*;

verus! {

/// An opaque identifier for a display-server window.  The core never
/// inspects a window beyond its identity.
pub type Window = u64;

/// An ordered collection of windows with one focused element.  `up` holds
/// the windows before the focus and `down` the windows after it, each
/// nearest-to-focus first, so the visible order is
/// `reverse(up) ++ [focus] ++ down`.
#[derive(Clone, Debug, PartialEq, Eq)]
pub struct Stack {
    pub focus: Window,
    pub up: Vec<Window>,
    pub down: Vec<Window>,
}

/// The mathematical content of a `Stack`.
#[verifier::ext_equal]
pub struct StackView {
    pub focus: Window,
    pub up: Seq<Window>,
    pub down: Seq<Window>,
}

impl View for Stack {
    type V = StackView;

    open spec fn view(&self) -> StackView {
        StackView { focus: self.focus, up: self.up@, down: self.down@ }
    }
}

impl StackView {
    /// The full visible order: `reverse(up) ++ [focus] ++ down`.
    pub open spec fn seq(self) -> Seq<Window> {
        self.up.reverse() + seq![self.focus] + self.down
    }

    /// Number of windows held.
    pub open spec fn len(self) -> nat {
        self.seq().len()
    }

    /// Position of the focused window within `seq()`.
    pub open spec fn idx(self) -> int {
        self.up.len() as int
    }

    /// A stack is well formed when no window occurs twice.
    pub open spec fn wf(self) -> bool {
        self.seq().no_duplicates()
    }

    /// Whether `w` is the focus or occurs in `up` or `down`.
    pub open spec fn contains(self, w: Window) -> bool {
        self.seq().contains(w)
    }

    /// Focus the next window in the visible order, wrapping past the end.
    pub open spec fn focus_down(self) -> StackView {
        if self.down.len() > 0 {
            StackView {
                focus: self.down[0],
                up: seq![self.focus] + self.up,
                down: self.down.skip(1),
            }
        } else if self.up.len() > 0 {
            StackView {
                focus: self.up.last(),
                up: Seq::empty(),
                down: self.up.take(self.up.len() - 1).reverse() + seq![self.focus],
            }
        } else {
            self
        }
    }

    /// Focus the previous window in the visible order, wrapping past the front.
    pub open spec fn focus_up(self) -> StackView {
        if self.up.len() > 0 {
            StackView {
                focus: self.up[0],
                up: self.up.skip(1),
                down: seq![self.focus] + self.down,
            }
        } else if self.down.len() > 0 {
            StackView {
                focus: self.down.last(),
                up: self.down.take(self.down.len() - 1).reverse() + seq![self.focus],
                down: Seq::empty(),
            }
        } else {
            self
        }
    }

    /// Exchange the focused window with its successor; the focus follows the
    /// moved window, wrapping it to the front when it leaves the end.
    pub open spec fn swap_down(self) -> StackView {
        if self.down.len() > 0 {
            StackView {
                focus: self.focus,
                up: seq![self.down[0]] + self.up,
                down: self.down.skip(1),
            }
        } else {
            StackView { focus: self.focus, up: Seq::empty(), down: self.up.reverse() }
        }
    }

    /// Exchange the focused window with its predecessor; the focus follows
    /// the moved window, wrapping it to the end when it leaves the front.
    pub open spec fn swap_up(self) -> StackView {
        if self.up.len() > 0 {
            StackView {
                focus: self.focus,
                up: self.up.skip(1),
                down: seq![self.up[0]] + self.down,
            }
        } else {
            StackView { focus: self.focus, up: self.down.reverse(), down: Seq::empty() }
        }
    }

    /// Move the focused window to the front of the visible order; the focus
    /// stays on the same window.
    pub open spec fn swap_master(self) -> StackView {
        StackView { focus: self.focus, up: Seq::empty(), down: self.up.reverse() + self.down }
    }

    /// Insert `w` as the new focus; the previous focus becomes its nearest
    /// successor.
    pub open spec fn insert(self, w: Window) -> StackView {
        StackView { focus: w, up: self.up, down: seq![self.focus] + self.down }
    }

    /// Keep only the windows satisfying `p`; a failing focus moves to the
    /// nearest survivor, preferring `down`; `None` when nothing survives.
    pub open spec fn filter_spec(self, p: spec_fn(Window) -> bool) -> Option<StackView> {
        let ku = self.up.filter(p);
        let kd = self.down.filter(p);
        if p(self.focus) {
            Some(StackView { focus: self.focus, up: ku, down: kd })
        } else if kd.len() > 0 {
            Some(StackView { focus: kd[0], up: ku, down: kd.skip(1) })
        } else if ku.len() > 0 {
            Some(StackView { focus: ku[0], up: ku.skip(1), down: Seq::empty() })
        } else {
            None
        }
    }

    /// Give the focus to `w`, keeping the visible order; unchanged when
    /// `w` is not held.
    pub open spec fn focus_window_spec(self, w: Window) -> StackView {
        let i = first_index(self.seq(), w);
        if i < 0 {
            self
        } else {
            StackView { focus: w, up: self.seq().take(i).reverse(), down: self.seq().skip(i + 1) }
        }
    }
}

/// The first position of `w` in `s`, or a negative value if absent.
pub open spec fn first_index(s: Seq<Window>, w: Window) -> int
    decreases s.len(),
{
    if s.len() == 0 {
        -1
    } else if s[0] == w {
        0
    } else {
        let r = first_index(s.skip(1), w);
        if r < 0 {
            -1
        } else {
            r + 1
        }
    }
}

/// `first_index` finds exactly the first occurrence.
pub proof fn lemma_first_index(s: Seq<Window>, w: Window)
    ensures
        (first_index(s, w) >= 0) == s.contains(w),
        first_index(s, w) >= 0 ==> first_index(s, w) < s.len() && s[first_index(s, w)] == w
            && (forall|j: int| 0 <= j < first_index(s, w) ==> s[j] != w),
    decreases s.len(),
{
    if s.len() > 0 && s[0] != w {
        lemma_first_index(s.skip(1), w);
        let r = first_index(s.skip(1), w);
        if r >= 0 {
            assert(s[r + 1] == s.skip(1)[r]);
            assert forall|j: int| 0 <= j < r + 1 implies s[j] != w by {
                if j > 0 {
                    assert(s[j] == s.skip(1)[j - 1]);
                }
            }
        } else {
            assert forall|j: int| 0 <= j < s.len() implies s[j] != w by {
                if j > 0 {
                    assert(s[j] == s.skip(1)[j - 1]);
                }
            }
            assert(!s.contains(w));
        }
        if s.contains(w) {
            let k = choose|k: int| 0 <= k < s.len() && s[k] == w;
            assert(s.skip(1)[k - 1] == w);
            assert(s.skip(1).contains(w));
        }
    }
}

/// The view of an optional stack.
pub open spec fn opt_stack_view(s: Option<Stack>) -> Option<StackView> {
    match s {
        Some(st) => Some(st@),
        None => None,
    }
}

/// The visible window order of an optional stack; empty when absent.
pub open spec fn opt_stack_seq(s: Option<StackView>) -> Seq<Window> {
    match s {
        Some(st) => st.seq(),
        None => Seq::empty(),
    }
}

impl Stack {
    /// A structurally equal copy.
    pub fn copied(&self) -> (r: Stack)
        ensures
            r@ == self@,
    {
        let r = Stack {
            focus: self.focus,
            up: copy_range(&self.up, 0, self.up.len()),
            down: copy_range(&self.down, 0, self.down.len()),
        };
        proof {
            assert(r@ =~= self@);
        }
        r
    }

    pub fn new(focus: Window, up: Vec<Window>, down: Vec<Window>) -> (r: Stack)
        ensures
            r@ == (StackView { focus, up: up@, down: down@ }),
    {
        Stack { focus, up, down }
    }

    /// True iff `w` is the focus or present in `up` or `down`.
    pub fn contains(&self, w: Window) -> (r: bool)
        ensures
            r == self@.contains(w),
            r == (w == self@.focus || self@.up.contains(w) || self@.down.contains(w)),
    {
        proof {
            lemma_seq_parts_contains(self@, w);
        }
        if self.focus == w {
            true
        } else {
            vec_contains(&self.up, w) || vec_contains(&self.down, w)
        }
    }

    /// Number of windows held.
    pub fn len(&self) -> (r: usize)
        requires
            self@.len() <= usize::MAX,
        ensures
            r == self@.len(),
    {
        self.up.len() + 1 + self.down.len()
    }

    /// The windows in visible order.
    pub fn integrate(&self) -> (r: Vec<Window>)
        ensures
            r@ == self@.seq(),
    {
        let mut r = rev_range(&self.up, 0, self.up.len());
        r.push(self.focus);
        append_range(&mut r, &self.down, 0, self.down.len());
        proof {
            assert(r@ =~= self@.seq());
        }
        r
    }

    /// Focus the next window in the visible order, wrapping circularly.
    pub fn focus_down(&self) -> (r: Stack)
        ensures
            r@ == self@.focus_down(),
            r@.seq() == self@.seq(),
    {
        proof {
            lemma_focus_down_rotates(self@);
        }
        if self.down.len() > 0 {
            let mut new_up: Vec<Window> = Vec::new();
            new_up.push(self.focus);
            append_range(&mut new_up, &self.up, 0, self.up.len());
            let new_down = copy_range(&self.down, 1, self.down.len());
            let r = Stack { focus: self.down[0], up: new_up, down: new_down };
            proof {
                assert(r@ =~= self@.focus_down());
            }
            r
        } else if self.up.len() > 0 {
            let m = self.up.len();
            let mut new_down = rev_range(&self.up, 0, m - 1);
            new_down.push(self.focus);
            let r = Stack { focus: self.up[m - 1], up: Vec::new(), down: new_down };
            proof {
                assert(r@ =~= self@.focus_down());
            }
            r
        } else {
            let r = Stack {
                focus: self.focus,
                up: Vec::new(),
                down: Vec::new(),
            };
            proof {
                assert(self.up@ =~= Seq::<Window>::empty());
                assert(self.down@ =~= Seq::<Window>::empty());
                assert(r@ =~= self@.focus_down());
            }
            r
        }
    }

    /// Focus the previous window in the visible order, wrapping circularly.
    pub fn focus_up(&self) -> (r: Stack)
        ensures
            r@ == self@.focus_up(),
            r@.seq() == self@.seq(),
    {
        proof {
            lemma_focus_up_rotates(self@);
        }
        if self.up.len() > 0 {
            let new_up = copy_range(&self.up, 1, self.up.len());
            let mut new_down: Vec<Window> = Vec::new();
            new_down.push(self.focus);
            append_range(&mut new_down, &self.down, 0, self.down.len());
            let r = Stack { focus: self.up[0], up: new_up, down: new_down };
            proof {
                assert(r@ =~= self@.focus_up());
            }
            r
        } else if self.down.len() > 0 {
            let k = self.down.len();
            let mut new_up = rev_range(&self.down, 0, k - 1);
            new_up.push(self.focus);
            let r = Stack { focus: self.down[k - 1], up: new_up, down: Vec::new() };
            proof {
                assert(r@ =~= self@.focus_up());
            }
            r
        } else {
            let r = Stack {
                focus: self.focus,
                up: Vec::new(),
                down: Vec::new(),
            };
            proof {
                assert(self.up@ =~= Seq::<Window>::empty());
                assert(self.down@ =~= Seq::<Window>::empty());
                assert(r@ =~= self@.focus_up());
            }
            r
        }
    }

    /// Exchange the focused window with its successor, wrapping circularly.
    pub fn swap_down(&self) -> (r: Stack)
        ensures
            r@ == self@.swap_down(),
    {
        if self.down.len() > 0 {
            let mut new_up: Vec<Window> = Vec::new();
            new_up.push(self.down[0]);
            append_range(&mut new_up, &self.up, 0, self.up.len());
            let new_down = copy_range(&self.down, 1, self.down.len());
            let r = Stack { focus: self.focus, up: new_up, down: new_down };
            proof {
                assert(r@ =~= self@.swap_down());
            }
            r
        } else {
            let r = Stack {
                focus: self.focus,
                up: Vec::new(),
                down: rev_range(&self.up, 0, self.up.len()),
            };
            proof {
                assert(r@ =~= self@.swap_down());
            }
            r
        }
    }

    /// Exchange the focused window with its predecessor, wrapping circularly.
    pub fn swap_up(&self) -> (r: Stack)
        ensures
            r@ == self@.swap_up(),
    {
        if self.up.len() > 0 {
            let new_up = copy_range(&self.up, 1, self.up.len());
            let mut new_down: Vec<Window> = Vec::new();
            new_down.push(self.up[0]);
            append_range(&mut new_down, &self.down, 0, self.down.len());
            let r = Stack { focus: self.focus, up: new_up, down: new_down };
            proof {
                assert(r@ =~= self@.swap_up());
            }
            r
        } else {
            let r = Stack {
                focus: self.focus,
                up: rev_range(&self.down, 0, self.down.len()),
                down: Vec::new(),
            };
            proof {
                assert(r@ =~= self@.swap_up());
            }
            r
        }
    }

    /// Move the focused window to the front of the visible order.
    pub fn swap_master(&self) -> (r: Stack)
        ensures
            r@ == self@.swap_master(),
    {
        let mut new_down = rev_range(&self.up, 0, self.up.len());
        append_range(&mut new_down, &self.down, 0, self.down.len());
        let r = Stack { focus: self.focus, up: Vec::new(), down: new_down };
        proof {
            assert(r@ =~= self@.swap_master());
        }
        r
    }

    /// Insert `w` as the new focus, pushing the previous focus onto `down`.
    pub fn insert(&self, w: Window) -> (r: Stack)
        ensures
            r@ == self@.insert(w),
    {
        let new_up = copy_range(&self.up, 0, self.up.len());
        let mut new_down: Vec<Window> = Vec::new();
        new_down.push(self.focus);
        append_range(&mut new_down, &self.down, 0, self.down.len());
        let r = Stack { focus: w, up: new_up, down: new_down };
        proof {
            assert(r@ =~= self@.insert(w));
        }
        r
    }

    /// Keep only the windows that `f` accepts; a rejected focus moves to
    /// the nearest survivor, preferring `down`; `None` when none survive.
    /// `p` is the predicate that `f` computes.
    pub fn filter<F: Fn(Window) -> bool>(&self, f: F, Ghost(p): Ghost<spec_fn(Window) -> bool>)
        -> (r: Option<Stack>)
        requires
            forall|w: Window| #[trigger] f.requires((w,)),
            forall|w: Window, b: bool| #[trigger] f.ensures((w,), b) ==> b == p(w),
        ensures
            opt_stack_view(r) == self@.filter_spec(p),
    {
        let ku = filter_vec(&self.up, &f, Ghost(p));
        let kd = filter_vec(&self.down, &f, Ghost(p));
        let keep_focus = f(self.focus);
        if keep_focus {
            let r = Stack { focus: self.focus, up: ku, down: kd };
            proof {
                assert(r@ =~= self@.filter_spec(p)->Some_0);
            }
            Some(r)
        } else if kd.len() > 0 {
            let nf = kd[0];
            let nd = copy_range(&kd, 1, kd.len());
            let r = Stack { focus: nf, up: ku, down: nd };
            proof {
                assert(r@ =~= self@.filter_spec(p)->Some_0);
            }
            Some(r)
        } else if ku.len() > 0 {
            let nf = ku[0];
            let nu = copy_range(&ku, 1, ku.len());
            let r = Stack { focus: nf, up: nu, down: Vec::new() };
            proof {
                assert(r@ =~= self@.filter_spec(p)->Some_0);
            }
            Some(r)
        } else {
            None
        }
    }

    /// Give the focus to `window`, keeping the visible order; a copy of
    /// the stack when `window` is not held.
    pub fn focus_window(&self, window: Window) -> (r: Stack)
        ensures
            r@ == self@.focus_window_spec(window),
    {
        proof {
            lemma_first_index(self@.seq(), window);
        }
        let order = self.integrate();
        let mut i: usize = 0;
        while i < order.len()
            invariant
                i <= order@.len(),
                order@ == self@.seq(),
                forall|j: int| 0 <= j < i ==> order@[j] != window,
            decreases order@.len() - i,
        {
            if order[i] == window {
                let new_up = rev_range(&order, 0, i);
                let new_down = copy_range(&order, i + 1, order.len());
                let r = Stack { focus: window, up: new_up, down: new_down };
                proof {
                    lemma_first_index(self@.seq(), window);
                    let s = self@.seq();
                    let fi = first_index(s, window);
                    assert(s[i as int] == window);
                    assert(s.contains(window));
                    assert(fi >= i) by {
                        if 0 <= fi < i {
                            assert(order@[fi] == window);
                        }
                    }
                    assert(fi == i);
                    assert(r@ =~= self@.focus_window_spec(window));
                }
                return r;
            }
            i += 1;
        }
        proof {
            lemma_first_index(self@.seq(), window);
            assert(!self@.seq().contains(window));
        }
        self.copied()
    }
}

/// Keep the elements of `v` that `f` accepts, in order; `p` is the
/// predicate that `f` computes.
fn filter_vec<F: Fn(Window) -> bool>(v: &Vec<Window>, f: &F, Ghost(p): Ghost<
    spec_fn(Window) -> bool,
>) -> (r: Vec<Window>)
    requires
        forall|w: Window| #[trigger] f.requires((w,)),
        forall|w: Window, b: bool| #[trigger] f.ensures((w,), b) ==> b == p(w),
    ensures
        r@ == v@.filter(p),
{
    let mut r: Vec<Window> = Vec::new();
    let mut i: usize = 0;
    proof {
        reveal(Seq::filter);
        assert(v@.take(0).filter(p) =~= Seq::<Window>::empty());
    }
    while i < v.len()
        invariant
            i <= v@.len(),
            forall|w: Window| #[trigger] f.requires((w,)),
            forall|w: Window, b: bool| #[trigger] f.ensures((w,), b) ==> b == p(w),
            r@ == v@.take(i as int).filter(p),
        decreases v@.len() - i,
    {
        let keep = f(v[i]);
        if keep {
            r.push(v[i]);
        }
        proof {
            reveal(Seq::filter);
            let t1 = v@.take(i + 1);
            assert(t1.drop_last() =~= v@.take(i as int));
            assert(t1.last() == v@[i as int]);
            assert(keep == p(v@[i as int]));
            assert(r@ == v@.take(i + 1).filter(p));
        }
        i += 1;
    }
    proof {
        assert(v@.take(v@.len() as int) =~= v@);
    }
    r
}

/// Whether `w` occurs in `v`.
fn vec_contains(v: &Vec<Window>, w: Window) -> (r: bool)
    ensures
        r == v@.contains(w),
{
    let mut i: usize = 0;
    while i < v.len()
        invariant
            i <= v@.len(),
            forall|j: int| 0 <= j < i ==> v@[j] != w,
        decreases v@.len() - i,
    {
        if v[i] == w {
            return true;
        }
        i += 1;
    }
    false
}

/// Copy `v[from..to]` into a fresh vector.
fn copy_range(v: &Vec<Window>, from: usize, to: usize) -> (r: Vec<Window>)
    requires
        from <= to <= v@.len(),
    ensures
        r@ == v@.subrange(from as int, to as int),
{
    let mut r: Vec<Window> = Vec::new();
    append_range(&mut r, v, from, to);
    proof {
        assert(r@ =~= v@.subrange(from as int, to as int));
    }
    r
}

/// Append `v[from..to]` to `a`.
fn append_range(a: &mut Vec<Window>, v: &Vec<Window>, from: usize, to: usize)
    requires
        from <= to <= v@.len(),
    ensures
        final(a)@ == old(a)@ + v@.subrange(from as int, to as int),
{
    let mut i: usize = from;
    while i < to
        invariant
            from <= i <= to <= v@.len(),
            a@ == old(a)@ + v@.subrange(from as int, i as int),
        decreases to - i,
    {
        a.push(v[i]);
        proof {
            assert(a@ =~= old(a)@ + v@.subrange(from as int, i as int + 1));
        }
        i += 1;
    }
}

/// Collect `v[from..to]` in reverse order into a fresh vector.
fn rev_range(v: &Vec<Window>, from: usize, to: usize) -> (r: Vec<Window>)
    requires
        from <= to <= v@.len(),
    ensures
        r@ == v@.subrange(from as int, to as int).reverse(),
{
    let mut r: Vec<Window> = Vec::new();
    let mut i: usize = to;
    while i > from
        invariant
            from <= i <= to <= v@.len(),
            r@ == v@.subrange(i as int, to as int).reverse(),
        decreases i - from,
    {
        i -= 1;
        r.push(v[i]);
        proof {
            assert(r@ =~= v@.subrange(i as int, to as int).reverse());
        }
    }
    r
}

/// `seq()` holds `w` exactly when the focus, `up` or `down` does.
pub proof fn lemma_seq_parts_contains(v: StackView, w: Window)
    ensures
        v.contains(w) <==> (w == v.focus || v.up.contains(w) || v.down.contains(w)),
{
    if v.up.contains(w) {
        let i = choose|i: int| 0 <= i < v.up.len() && v.up[i] == w;
        assert(v.seq()[v.up.len() - 1 - i] == w);
    }
    if v.down.contains(w) {
        let i = choose|i: int| 0 <= i < v.down.len() && v.down[i] == w;
        assert(v.seq()[v.up.len() + 1 + i] == w);
    }
    assert(v.seq()[v.up.len() as int] == v.focus);
    if v.seq().contains(w) {
        let i = choose|i: int| 0 <= i < v.seq().len() && v.seq()[i] == w;
        if i < v.up.len() {
            assert(v.up[v.up.len() - 1 - i] == w);
        } else if i > v.up.len() {
            assert(v.down[i - v.up.len() - 1] == w);
        }
    }
}

/// A filtered stack never holds a window the predicate rejects.
pub proof fn lemma_filter_rejects(v: StackView, p: spec_fn(Window) -> bool, w: Window)
    requires
        !p(w),
    ensures
        match v.filter_spec(p) {
            Some(r) => !r.contains(w),
            None => true,
        },
{
    let ku = v.up.filter(p);
    let kd = v.down.filter(p);
    assert forall|i: int| 0 <= i < ku.len() implies p(#[trigger] ku[i]) by {
        v.up.lemma_filter_pred(p, i);
    }
    assert forall|i: int| 0 <= i < kd.len() implies p(#[trigger] kd[i]) by {
        v.down.lemma_filter_pred(p, i);
    }
    match v.filter_spec(p) {
        Some(r) => {
            lemma_seq_parts_contains(r, w);
            assert(w != r.focus);
            assert(!r.up.contains(w)) by {
                if r.up.contains(w) {
                    let i = choose|i: int| 0 <= i < r.up.len() && r.up[i] == w;
                    if p(v.focus) || kd.len() > 0 {
                        assert(r.up[i] == ku[i]);
                    } else {
                        assert(r.up[i] == ku[i + 1]);
                    }
                }
            }
            assert(!r.down.contains(w)) by {
                if r.down.contains(w) {
                    let i = choose|i: int| 0 <= i < r.down.len() && r.down[i] == w;
                    if p(v.focus) {
                        assert(r.down[i] == kd[i]);
                    } else if kd.len() > 0 {
                        assert(r.down[i] == kd[i + 1]);
                    }
                }
            }
        },
        None => {},
    }
}

/// One `focus_down` keeps the visible order and advances the focus
/// position by one, circularly.
pub proof fn lemma_focus_down_rotates(v: StackView)
    ensures
        v.focus_down().seq() == v.seq(),
        v.focus_down().idx() == (v.idx() + 1) % (v.len() as int),
{
    let n = v.len() as int;
    if v.down.len() > 0 {
        assert(v.focus_down().seq() =~= v.seq());
        vstd::arithmetic::div_mod::lemma_fundamental_div_mod_converse_mod(
            v.idx() + 1, n, 0, v.idx() + 1);
    } else if v.up.len() > 0 {
        assert(v.focus_down().seq() =~= v.seq());
        vstd::arithmetic::div_mod::lemma_fundamental_div_mod_converse_mod(v.idx() + 1, n, 1, 0);
    } else {
        assert(v.focus_down().seq() =~= v.seq());
        vstd::arithmetic::div_mod::lemma_fundamental_div_mod_converse_mod(v.idx() + 1, n, 1, 0);
    }
}

/// One `focus_up` keeps the visible order and moves the focus position
/// back by one, circularly.
pub proof fn lemma_focus_up_rotates(v: StackView)
    ensures
        v.focus_up().seq() == v.seq(),
        v.focus_up().idx() == (v.idx() + v.len() - 1) % (v.len() as int),
{
    let n = v.len() as int;
    if v.up.len() > 0 {
        assert(v.focus_up().seq() =~= v.seq());
        vstd::arithmetic::div_mod::lemma_fundamental_div_mod_converse_mod(
            v.idx() + n - 1, n, 1, v.idx() - 1);
    } else if v.down.len() > 0 {
        assert(v.focus_up().seq() =~= v.seq());
        vstd::arithmetic::div_mod::lemma_fundamental_div_mod_converse_mod(
            v.idx() + n - 1, n, 0, n - 1);
    } else {
        assert(v.focus_up().seq() =~= v.seq());
        vstd::arithmetic::div_mod::lemma_fundamental_div_mod_converse_mod(
            v.idx() + n - 1, n, 0, 0);
        assert(v.focus_up().idx() == 0);
    }
}

/// Moving the focus one step down and then one step up, or one step up and
/// then one step down, restores the original stack.
pub proof fn lemma_focus_down_up_inverse(v: StackView)
    ensures
        v.focus_down().focus_up() == v,
        v.focus_up().focus_down() == v,
{
    if v.down.len() > 0 {
        assert(v.focus_down().focus_up() =~~= v);
    } else if v.up.len() > 0 {
        let m = v.up.len();
        let t = v.focus_down();
        assert(t.down.len() == m);
        assert(t.down.last() == v.focus);
        assert(t.down.take(m - 1) =~= v.up.take(m - 1).reverse());
        assert(t.focus_up().up =~= v.up);
        assert(t.focus_up() =~~= v);
    } else {
        assert(v.focus_down().focus_up() =~~= v);
    }
    if v.up.len() > 0 {
        assert(v.focus_up().focus_down() =~~= v);
    } else if v.down.len() > 0 {
        let k = v.down.len();
        let t = v.focus_up();
        assert(t.up.len() == k);
        assert(t.up.last() == v.focus);
        assert(t.up.take(k - 1) =~= v.down.take(k - 1).reverse());
        assert(t.focus_down().down =~= v.down);
        assert(t.focus_down() =~~= v);
    } else {
        assert(v.focus_up().focus_down() =~~= v);
    }
}

/// `focus_down` applied `k` times.
pub open spec fn focus_down_iter(v: StackView, k: nat) -> StackView
    decreases k,
{
    if k == 0 {
        v
    } else {
        focus_down_iter(v, (k - 1) as nat).focus_down()
    }
}

/// Iterating `focus_down` keeps the visible order and advances the focus
/// position by the number of steps, circularly.
pub proof fn lemma_focus_down_iter(v: StackView, k: nat)
    ensures
        focus_down_iter(v, k).seq() == v.seq(),
        focus_down_iter(v, k).idx() == (v.idx() + k) % (v.len() as int),
    decreases k,
{
    let n = v.len() as int;
    if k == 0 {
        vstd::arithmetic::div_mod::lemma_fundamental_div_mod_converse_mod(v.idx(), n, 0, v.idx());
    } else {
        let prev = focus_down_iter(v, (k - 1) as nat);
        lemma_focus_down_iter(v, (k - 1) as nat);
        lemma_focus_down_rotates(prev);
        assert(prev.len() == v.len());
        let a = v.idx() + k - 1;
        vstd::arithmetic::div_mod::lemma_fundamental_div_mod(a, n);
        vstd::arithmetic::div_mod::lemma_mod_bound(a, n);
        let q = a / n;
        let r = a % n;
        assert(prev.idx() == r);
        if r + 1 < n {
            vstd::arithmetic::div_mod::lemma_fundamental_div_mod_converse_mod(
                v.idx() + k, n, q, r + 1);
            vstd::arithmetic::div_mod::lemma_fundamental_div_mod_converse_mod(r + 1, n, 0, r + 1);
        } else {
            assert((q + 1) * n == q * n + n) by (nonlinear_arith);
            vstd::arithmetic::div_mod::lemma_fundamental_div_mod_converse_mod(
                v.idx() + k, n, q + 1, 0);
            vstd::arithmetic::div_mod::lemma_fundamental_div_mod_converse_mod(r + 1, n, 1, 0);
        }
    }
}

/// A stack view is determined by its visible order and its focus position.
pub proof fn lemma_view_determined(v: StackView)
    ensures
        v.up == v.seq().take(v.idx()).reverse(),
        v.focus == v.seq()[v.idx()],
        v.down == v.seq().skip(v.idx() + 1),
{
    assert(v.seq().take(v.idx()) =~= v.up.reverse());
    assert(v.up.reverse().reverse() =~= v.up);
    assert(v.seq().skip(v.idx() + 1) =~= v.down);
}

/// Applying `focus_down` as many times as the stack has windows returns the
/// original stack: the focus order is circular.
pub proof fn lemma_focus_down_full_cycle(v: StackView)
    ensures
        focus_down_iter(v, v.len()) == v,
{
    lemma_focus_down_iter(v, v.len());
    let r = focus_down_iter(v, v.len());
    let n = v.len() as int;
    vstd::arithmetic::div_mod::lemma_fundamental_div_mod_converse_mod(
        v.idx() + n, n, 1, v.idx());
    assert(r.idx() == v.idx());
    lemma_view_determined(r);
    lemma_view_determined(v);
    assert(r =~= v);
}

/// Moving the focused window to the front changes nothing when it already
/// is the front element, and doing it twice is the same as doing it once.
pub proof fn lemma_swap_master_idempotent(v: StackView)
    ensures
        v.idx() == 0 ==> v.swap_master() == v,
        v.swap_master().swap_master() == v.swap_master(),
{
    if v.idx() == 0 {
        assert(v.swap_master() =~~= v);
    }
    assert(v.swap_master().swap_master() =~~= v.swap_master());
}

} // verus!
