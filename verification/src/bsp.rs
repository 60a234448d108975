//! Binary space partitioning: a tree of proportional splits whose leaves
//! are window slots in stack order, with the tree edits the message
//! protocol exposes (rotate, swap, expand, shrink).

use vstd::prelude::*;
use crate::geometry::Rectangle;
use crate::stack::Window;

verus! {

/// Lower clamp bound for a split ratio, in percent.
pub const RATIO_MIN: u32 = 10;

/// Upper clamp bound for a split ratio, in percent.
pub const RATIO_MAX: u32 = 90;

/// Fixed step by which a split ratio is adjusted, in percent.
pub const RATIO_STEP: u32 = 5;

/// A binary split tree.  Leaves are window slots in stack order; an inner
/// node splits its rectangle between its children, giving the left (or
/// top) child `ratio` percent.
#[derive(Debug)]
pub enum BspTree {
    Leaf,
    Split { horiz: bool, ratio: u32, left: Box<BspTree>, right: Box<BspTree> },
}

/// The split tree of one workspace's binary space partitioning layout.
#[derive(Debug)]
pub struct BinarySpacePartition {
    pub tree: BspTree,
}

/// A ratio capped at one hundred percent.
pub open spec fn clamp100(r: u32) -> u32 {
    if r > 100 {
        100
    } else {
        r
    }
}

/// `ratio` percent of `w`, rounded down.
pub open spec fn frac(w: u32, ratio: u32) -> int {
    (w as int) * (clamp100(ratio) as int) / 100
}

pub proof fn lemma_frac_bounds(w: u32, ratio: u32)
    ensures
        0 <= frac(w, ratio) <= w,
{
    let q = clamp100(ratio) as int;
    let wi = w as int;
    vstd::arithmetic::mul::lemma_mul_nonnegative(wi, q);
    vstd::arithmetic::div_mod::lemma_div_of0(100);
    vstd::arithmetic::div_mod::lemma_div_is_ordered(0, wi * q, 100);
    vstd::arithmetic::mul::lemma_mul_inequality(q, 100, wi);
    vstd::arithmetic::mul::lemma_mul_is_commutative(q, wi);
    vstd::arithmetic::div_mod::lemma_div_is_ordered(wi * q, 100 * wi, 100);
    vstd::arithmetic::div_mod::lemma_div_multiples_vanish(wi, 100);
}

/// Split `r` at `ratio` percent: side by side when `horiz`, else stacked.
/// The pair is in visual order (left before right, top before bottom).
pub open spec fn split_rect(r: Rectangle, horiz: bool, ratio: u32) -> (Rectangle, Rectangle) {
    if horiz {
        let w1 = frac(r.width, ratio) as u32;
        (
            Rectangle { x: r.x, y: r.y, width: w1, height: r.height },
            Rectangle {
                x: (r.x + w1) as u32,
                y: r.y,
                width: (r.width - w1) as u32,
                height: r.height,
            },
        )
    } else {
        let h1 = frac(r.height, ratio) as u32;
        (
            Rectangle { x: r.x, y: r.y, width: r.width, height: h1 },
            Rectangle {
                x: r.x,
                y: (r.y + h1) as u32,
                width: r.width,
                height: (r.height - h1) as u32,
            },
        )
    }
}

/// The two halves of a split are well formed, disjoint, and together cover
/// exactly the split rectangle.
pub proof fn lemma_split_partitions(r: Rectangle, horiz: bool, ratio: u32)
    requires
        r.wf(),
    ensures
        split_rect(r, horiz, ratio).0.wf(),
        split_rect(r, horiz, ratio).1.wf(),
        split_rect(r, horiz, ratio).0.disjoint(split_rect(r, horiz, ratio).1),
        forall|px: int, py: int|
            #[trigger] r.has_point(px, py) <==> (split_rect(r, horiz, ratio).0.has_point(px, py)
                || split_rect(r, horiz, ratio).1.has_point(px, py)),
{
    if horiz {
        lemma_frac_bounds(r.width, ratio);
    } else {
        lemma_frac_bounds(r.height, ratio);
    }
    let a = split_rect(r, horiz, ratio).0;
    let b = split_rect(r, horiz, ratio).1;
    assert forall|px: int, py: int|
        !(#[trigger] a.has_point(px, py) && #[trigger] b.has_point(px, py)) by {}
    assert forall|px: int, py: int|
        #[trigger] r.has_point(px, py) <==> (a.has_point(px, py) || b.has_point(px, py)) by {}
}

/// Split `r` at `ratio` percent.
pub fn split_exec(r: Rectangle, horiz: bool, ratio: u32) -> (p: (Rectangle, Rectangle))
    requires
        r.wf(),
    ensures
        p == split_rect(r, horiz, ratio),
{
    proof {
        lemma_frac_bounds(r.width, ratio);
        lemma_frac_bounds(r.height, ratio);
    }
    let q = if ratio > 100 {
        100u32
    } else {
        ratio
    };
    if horiz {
        let w1 = ((r.width as u64) * (q as u64) / 100) as u32;
        (
            Rectangle { x: r.x, y: r.y, width: w1, height: r.height },
            Rectangle { x: r.x + w1, y: r.y, width: r.width - w1, height: r.height },
        )
    } else {
        let h1 = ((r.height as u64) * (q as u64) / 100) as u32;
        (
            Rectangle { x: r.x, y: r.y, width: r.width, height: h1 },
            Rectangle { x: r.x, y: r.y + h1, width: r.width, height: r.height - h1 },
        )
    }
}

impl BspTree {
    /// Number of window slots.
    pub open spec fn leaves(self) -> nat
        decreases self,
    {
        match self {
            BspTree::Leaf => 1,
            BspTree::Split { left, right, .. } => left.leaves() + right.leaves(),
        }
    }

    /// Every split ratio lies within the clamp bounds.
    pub open spec fn wf(self) -> bool
        decreases self,
    {
        match self {
            BspTree::Leaf => true,
            BspTree::Split { ratio, left, right, .. } => RATIO_MIN <= ratio <= RATIO_MAX
                && left.wf() && right.wf(),
        }
    }

    /// Every split ratio is at least one step away from the clamp bounds.
    pub open spec fn ratios_slack(self) -> bool
        decreases self,
    {
        match self {
            BspTree::Leaf => true,
            BspTree::Split { ratio, left, right, .. } => RATIO_MIN + RATIO_STEP <= ratio
                <= RATIO_MAX - RATIO_STEP && left.ratios_slack() && right.ratios_slack(),
        }
    }

    /// Same structure and split axes; ratios may differ.
    pub open spec fn same_shape(self, other: BspTree) -> bool
        decreases self,
    {
        match (self, other) {
            (BspTree::Leaf, BspTree::Leaf) => true,
            (
                BspTree::Split { horiz: h1, left: l1, right: r1, .. },
                BspTree::Split { horiz: h2, left: l2, right: r2, .. },
            ) => h1 == h2 && l1.same_shape(*l2) && r1.same_shape(*r2),
            _ => false,
        }
    }

    /// Whether the path from the root to leaf `idx` passes a split whose
    /// axis matches `horiz`.
    pub open spec fn has_target(self, idx: int, horiz: bool) -> bool
        decreases self,
    {
        match self {
            BspTree::Leaf => false,
            BspTree::Split { horiz: h, left, right, .. } => h == horiz || (if idx
                < left.leaves() {
                left.has_target(idx, horiz)
            } else {
                right.has_target(idx - left.leaves(), horiz)
            }),
        }
    }

    /// Rotate at the parent of leaf `idx`: a left rotation when the leaf is
    /// the left child, a right rotation when it is the right child; a no-op
    /// where the sibling is not itself a split.
    pub open spec fn rotated_spec(self, idx: int) -> BspTree
        decreases self,
    {
        match self {
            BspTree::Leaf => self,
            BspTree::Split { horiz, ratio, left, right } => {
                let lc = left.leaves() as int;
                if idx < lc {
                    match *left {
                        BspTree::Leaf => match *right {
                            BspTree::Split { horiz: h2, ratio: r2, left: rl, right: rr } => {
                                BspTree::Split {
                                    horiz: h2,
                                    ratio: r2,
                                    left: Box::new(
                                        BspTree::Split { horiz, ratio, left, right: rl },
                                    ),
                                    right: rr,
                                }
                            },
                            BspTree::Leaf => self,
                        },
                        BspTree::Split { .. } => BspTree::Split {
                            horiz,
                            ratio,
                            left: Box::new(left.rotated_spec(idx)),
                            right,
                        },
                    }
                } else {
                    match *right {
                        BspTree::Leaf => match *left {
                            BspTree::Split { horiz: h2, ratio: r2, left: ll, right: lr } => {
                                BspTree::Split {
                                    horiz: h2,
                                    ratio: r2,
                                    left: ll,
                                    right: Box::new(
                                        BspTree::Split { horiz, ratio, left: lr, right },
                                    ),
                                }
                            },
                            BspTree::Leaf => self,
                        },
                        BspTree::Split { .. } => BspTree::Split {
                            horiz,
                            ratio,
                            left,
                            right: Box::new(right.rotated_spec(idx - lc)),
                        },
                    }
                }
            },
        }
    }

    /// Exchange the subtree holding leaf `idx` with its sibling, at the
    /// parent of that leaf.
    pub open spec fn swapped_spec(self, idx: int) -> BspTree
        decreases self,
    {
        match self {
            BspTree::Leaf => self,
            BspTree::Split { horiz, ratio, left, right } => {
                let lc = left.leaves() as int;
                if idx < lc {
                    match *left {
                        BspTree::Leaf => BspTree::Split { horiz, ratio, left: right, right: left },
                        BspTree::Split { .. } => BspTree::Split {
                            horiz,
                            ratio,
                            left: Box::new(left.swapped_spec(idx)),
                            right,
                        },
                    }
                } else {
                    match *right {
                        BspTree::Leaf => BspTree::Split { horiz, ratio, left: right, right: left },
                        BspTree::Split { .. } => BspTree::Split {
                            horiz,
                            ratio,
                            left,
                            right: Box::new(right.swapped_spec(idx - lc)),
                        },
                    }
                }
            },
        }
    }

    /// Adjust the ratio of the nearest ancestor of leaf `idx` whose axis
    /// matches `horiz`, by one step, clamped; growing enlarges the side
    /// holding the leaf, shrinking reduces it.  A no-op without such an
    /// ancestor.
    pub open spec fn adjusted_spec(self, idx: int, horiz: bool, grow: bool) -> BspTree
        decreases self,
    {
        match self {
            BspTree::Leaf => self,
            BspTree::Split { horiz: h, ratio, left, right } => {
                let lc = left.leaves() as int;
                if idx < lc {
                    if left.has_target(idx, horiz) {
                        BspTree::Split {
                            horiz: h,
                            ratio,
                            left: Box::new(left.adjusted_spec(idx, horiz, grow)),
                            right,
                        }
                    } else if h == horiz {
                        let d = if grow {
                            RATIO_STEP as int
                        } else {
                            -(RATIO_STEP as int)
                        };
                        BspTree::Split { horiz: h, ratio: clamp_ratio(ratio + d), left, right }
                    } else {
                        self
                    }
                } else {
                    if right.has_target(idx - lc, horiz) {
                        BspTree::Split {
                            horiz: h,
                            ratio,
                            left,
                            right: Box::new(right.adjusted_spec(idx - lc, horiz, grow)),
                        }
                    } else if h == horiz {
                        let d = if grow {
                            -(RATIO_STEP as int)
                        } else {
                            RATIO_STEP as int
                        };
                        BspTree::Split { horiz: h, ratio: clamp_ratio(ratio + d), left, right }
                    } else {
                        self
                    }
                }
            },
        }
    }

    /// Adjust the root split ratio by one step, clamped.
    pub open spec fn root_adjusted_spec(self, increase: bool) -> BspTree {
        match self {
            BspTree::Leaf => self,
            BspTree::Split { horiz, ratio, left, right } => {
                let d = if increase {
                    RATIO_STEP as int
                } else {
                    -(RATIO_STEP as int)
                };
                BspTree::Split { horiz, ratio: clamp_ratio(ratio + d), left, right }
            },
        }
    }
}

/// A ratio clamped to the allowed bounds.
pub open spec fn clamp_ratio(v: int) -> u32 {
    if v < RATIO_MIN {
        RATIO_MIN
    } else if v > RATIO_MAX {
        RATIO_MAX
    } else {
        v as u32
    }
}

/// The initial tree for `n` windows: a chain of splits whose axis
/// alternates by depth, one leaf per window in stack order.
pub open spec fn build_spec(n: nat, horiz: bool) -> BspTree
    decreases n,
{
    if n <= 1 {
        BspTree::Leaf
    } else {
        BspTree::Split {
            horiz,
            ratio: 50,
            left: Box::new(BspTree::Leaf),
            right: Box::new(build_spec((n - 1) as nat, !horiz)),
        }
    }
}

pub proof fn lemma_build_props(n: nat, horiz: bool)
    ensures
        build_spec(n, horiz).leaves() == if n <= 1 { 1nat } else { n },
        build_spec(n, horiz).wf(),
    decreases n,
{
    if n > 1 {
        lemma_build_props((n - 1) as nat, !horiz);
        let t = build_spec(n, horiz);
        match t {
            BspTree::Split { left, right, .. } => {
                assert(left.leaves() == 1);
                assert(right.leaves() == if n - 1 <= 1 { 1nat } else { (n - 1) as nat });
            },
            BspTree::Leaf => {},
        }
    }
}

/// The tree used to place `n` windows: the current tree when its slot
/// count matches, otherwise a freshly built one.
pub open spec fn sync_spec(t: BspTree, n: nat) -> BspTree {
    if t.leaves() == n {
        t
    } else {
        build_spec(n, true)
    }
}

/// Recursive placement: assign the windows to the leaves in order, each
/// leaf receiving the rectangle its splits produce.
pub open spec fn bsp_place(t: BspTree, ws: Seq<Window>, r: Rectangle) -> Seq<(Window, Rectangle)>
    decreases t,
{
    match t {
        BspTree::Leaf => seq![(ws[0], r)],
        BspTree::Split { horiz, ratio, left, right } => {
            let halves = split_rect(r, horiz, ratio);
            bsp_place(*left, ws.take(left.leaves() as int), halves.0) + bsp_place(
                *right,
                ws.skip(left.leaves() as int),
                halves.1,
            )
        },
    }
}

/// Placement of the whole layout: nothing for no windows, else placement
/// through a tree synchronised to the window count.
pub open spec fn bsp_apply_spec(t: BspTree, ws: Seq<Window>, r: Rectangle) -> Seq<
    (Window, Rectangle),
> {
    if ws.len() == 0 {
        Seq::empty()
    } else {
        bsp_place(sync_spec(t, ws.len()), ws, r)
    }
}

/// Placement through a tree puts every window exactly once, in stack
/// order, into well-formed, pairwise disjoint rectangles that together
/// cover exactly the screen rectangle.
pub proof fn lemma_bsp_place_partitions(t: BspTree, ws: Seq<Window>, r: Rectangle)
    requires
        r.wf(),
        ws.len() == t.leaves(),
    ensures
        bsp_place(t, ws, r).len() == ws.len(),
        forall|i: int| 0 <= i < ws.len() ==> (#[trigger] bsp_place(t, ws, r)[i]).0 == ws[i],
        forall|i: int| 0 <= i < ws.len() ==> (#[trigger] bsp_place(t, ws, r)[i]).1.wf(),
        forall|i: int, j: int|
            0 <= i < j < ws.len() ==> (#[trigger] bsp_place(t, ws, r)[i]).1.disjoint(
                (#[trigger] bsp_place(t, ws, r)[j]).1,
            ),
        forall|px: int, py: int|
            #[trigger] r.has_point(px, py) <==> exists|i: int|
                0 <= i < ws.len() && (#[trigger] bsp_place(t, ws, r)[i]).1.has_point(px, py),
    decreases t,
{
    let res = bsp_place(t, ws, r);
    match t {
        BspTree::Leaf => {
            assert forall|px: int, py: int| #[trigger]
                r.has_point(px, py) <==> exists|i: int|
                    0 <= i < ws.len() && (#[trigger] res[i]).1.has_point(px, py) by {
                if r.has_point(px, py) {
                    assert(res[0].1.has_point(px, py));
                }
            }
        },
        BspTree::Split { horiz, ratio, left, right } => {
            let lc = left.leaves() as int;
            let halves = split_rect(r, horiz, ratio);
            let ra = halves.0;
            let rb = halves.1;
            lemma_split_partitions(r, horiz, ratio);
            let wl = ws.take(lc);
            let wr = ws.skip(lc);
            let la = bsp_place(*left, wl, ra);
            let lb = bsp_place(*right, wr, rb);
            lemma_bsp_place_partitions(*left, wl, ra);
            lemma_bsp_place_partitions(*right, wr, rb);
            assert(res == la + lb);
            assert forall|i: int| 0 <= i < ws.len() implies (#[trigger] res[i]).0 == ws[i]
                && res[i].1.wf() by {
                if i < lc {
                    assert(res[i] == la[i]);
                } else {
                    assert(res[i] == lb[i - lc]);
                    assert(wr[i - lc] == ws[i]);
                }
            }
            assert forall|i: int, j: int| 0 <= i < j < ws.len() implies (#[trigger] res[i]).1
                .disjoint((#[trigger] res[j]).1) by {
                if j < lc {
                    assert(res[i] == la[i] && res[j] == la[j]);
                } else if i >= lc {
                    assert(res[i] == lb[i - lc] && res[j] == lb[j - lc]);
                } else {
                    assert(res[i] == la[i] && res[j] == lb[j - lc]);
                    assert forall|px: int, py: int|
                        !(#[trigger] res[i].1.has_point(px, py) && #[trigger] res[j].1.has_point(
                            px,
                            py,
                        )) by {
                        if res[i].1.has_point(px, py) && res[j].1.has_point(px, py) {
                            assert(la[i].1.has_point(px, py));
                            assert(ra.has_point(px, py));
                            assert(rb.has_point(px, py));
                        }
                    }
                }
            }
            assert forall|px: int, py: int| #[trigger]
                r.has_point(px, py) <==> exists|i: int|
                    0 <= i < ws.len() && (#[trigger] res[i]).1.has_point(px, py) by {
                if r.has_point(px, py) {
                    if ra.has_point(px, py) {
                        let k = choose|k: int|
                            0 <= k < wl.len() && (#[trigger] la[k]).1.has_point(px, py);
                        assert(res[k] == la[k]);
                        assert(res[k].1.has_point(px, py));
                    } else {
                        assert(rb.has_point(px, py));
                        let k = choose|k: int|
                            0 <= k < wr.len() && (#[trigger] lb[k]).1.has_point(px, py);
                        assert(res[lc + k] == lb[k]);
                        assert(res[lc + k].1.has_point(px, py));
                    }
                }
                if exists|i: int| 0 <= i < ws.len() && (#[trigger] res[i]).1.has_point(px, py) {
                    let i = choose|i: int|
                        0 <= i < ws.len() && (#[trigger] res[i]).1.has_point(px, py);
                    if i < lc {
                        assert(la[i].1.has_point(px, py));
                        assert(ra.has_point(px, py));
                    } else {
                        assert(lb[i - lc].1.has_point(px, py));
                        assert(rb.has_point(px, py));
                    }
                }
            }
        },
    }
}

/// The layout-level placement of `n` windows yields exactly `n` well
/// formed, pairwise disjoint rectangles, in stack order, whose union is
/// exactly the screen rectangle.
pub proof fn lemma_bsp_apply_partitions(t: BspTree, ws: Seq<Window>, r: Rectangle)
    requires
        r.wf(),
        ws.len() > 0,
    ensures
        bsp_apply_spec(t, ws, r).len() == ws.len(),
        forall|i: int| 0 <= i < ws.len() ==> (#[trigger] bsp_apply_spec(t, ws, r)[i]).0 == ws[i],
        forall|i: int| 0 <= i < ws.len() ==> (#[trigger] bsp_apply_spec(t, ws, r)[i]).1.wf(),
        forall|i: int, j: int|
            0 <= i < j < ws.len() ==> (#[trigger] bsp_apply_spec(t, ws, r)[i]).1.disjoint(
                (#[trigger] bsp_apply_spec(t, ws, r)[j]).1,
            ),
        forall|px: int, py: int|
            #[trigger] r.has_point(px, py) <==> exists|i: int|
                0 <= i < ws.len() && (#[trigger] bsp_apply_spec(t, ws, r)[i]).1.has_point(px, py),
{
    lemma_build_props(ws.len(), true);
    lemma_bsp_place_partitions(sync_spec(t, ws.len()), ws, r);
    let res = bsp_apply_spec(t, ws, r);
    let pl = bsp_place(sync_spec(t, ws.len()), ws, r);
    assert(res == pl);
    assert forall|px: int, py: int| #[trigger]
        r.has_point(px, py) <==> exists|i: int|
            0 <= i < ws.len() && (#[trigger] res[i]).1.has_point(px, py) by {
        if r.has_point(px, py) {
            let k = choose|k: int| 0 <= k < ws.len() && (#[trigger] pl[k]).1.has_point(px, py);
            assert(res[k].1.has_point(px, py));
        }
        if exists|i: int| 0 <= i < ws.len() && (#[trigger] res[i]).1.has_point(px, py) {
            let k = choose|i: int| 0 <= i < ws.len() && (#[trigger] res[i]).1.has_point(px, py);
            assert(pl[k].1.has_point(px, py));
        }
    }
}

pub proof fn lemma_same_shape_refl(t: BspTree)
    ensures
        t.same_shape(t),
    decreases t,
{
    match t {
        BspTree::Leaf => {},
        BspTree::Split { left, right, .. } => {
            lemma_same_shape_refl(*left);
            lemma_same_shape_refl(*right);
        },
    }
}

pub proof fn lemma_same_shape_leaves(a: BspTree, b: BspTree)
    requires
        a.same_shape(b),
    ensures
        a.leaves() == b.leaves(),
    decreases a,
{
    match (a, b) {
        (
            BspTree::Split { left: l1, right: r1, .. },
            BspTree::Split { left: l2, right: r2, .. },
        ) => {
            lemma_same_shape_leaves(*l1, *l2);
            lemma_same_shape_leaves(*r1, *r2);
        },
        _ => {},
    }
}

/// Which ancestors match an axis depends only on the tree's shape.
pub proof fn lemma_same_shape_has_target(a: BspTree, b: BspTree, idx: int, horiz: bool)
    requires
        a.same_shape(b),
    ensures
        a.has_target(idx, horiz) == b.has_target(idx, horiz),
    decreases a,
{
    match (a, b) {
        (
            BspTree::Split { left: l1, right: r1, .. },
            BspTree::Split { left: l2, right: r2, .. },
        ) => {
            lemma_same_shape_leaves(*l1, *l2);
            lemma_same_shape_has_target(*l1, *l2, idx, horiz);
            lemma_same_shape_has_target(*r1, *r2, idx - l1.leaves(), horiz);
        },
        _ => {},
    }
}

/// A ratio adjustment never changes the tree's shape, and keeps it well
/// formed.
pub proof fn lemma_adjusted_props(t: BspTree, idx: int, horiz: bool, grow: bool)
    ensures
        t.adjusted_spec(idx, horiz, grow).same_shape(t),
        t.adjusted_spec(idx, horiz, grow).leaves() == t.leaves(),
        t.wf() ==> t.adjusted_spec(idx, horiz, grow).wf(),
    decreases t,
{
    lemma_same_shape_refl(t);
    match t {
        BspTree::Leaf => {},
        BspTree::Split { left, right, .. } => {
            lemma_same_shape_refl(*left);
            lemma_same_shape_refl(*right);
            lemma_adjusted_props(*left, idx, horiz, grow);
            lemma_adjusted_props(*right, idx - left.leaves(), horiz, grow);
            lemma_same_shape_leaves(t.adjusted_spec(idx, horiz, grow), t);
        },
    }
}

/// Rotating preserves the number of window slots and well-formedness.
pub proof fn lemma_rotated_props(t: BspTree, idx: int)
    ensures
        t.rotated_spec(idx).leaves() == t.leaves(),
        t.wf() ==> t.rotated_spec(idx).wf(),
    decreases t,
{
    reveal_with_fuel(BspTree::leaves, 4);
    reveal_with_fuel(BspTree::wf, 4);
    match t {
        BspTree::Leaf => {},
        BspTree::Split { left, right, .. } => {
            let lc = left.leaves() as int;
            if idx < lc {
                if !(*left is Leaf) {
                    lemma_rotated_props(*left, idx);
                }
            } else {
                if !(*right is Leaf) {
                    lemma_rotated_props(*right, idx - lc);
                }
            }
        },
    }
}

/// Swapping a subtree with its sibling preserves the number of window
/// slots and well-formedness.
pub proof fn lemma_swapped_props(t: BspTree, idx: int)
    ensures
        t.swapped_spec(idx).leaves() == t.leaves(),
        t.wf() ==> t.swapped_spec(idx).wf(),
    decreases t,
{
    match t {
        BspTree::Leaf => {},
        BspTree::Split { left, right, .. } => {
            lemma_swapped_props(*left, idx);
            lemma_swapped_props(*right, idx - left.leaves());
        },
    }
}

/// Adjusting the root ratio preserves the number of window slots and
/// well-formedness.
pub proof fn lemma_root_adjusted_props(t: BspTree, increase: bool)
    ensures
        t.root_adjusted_spec(increase).leaves() == t.leaves(),
        t.wf() ==> t.root_adjusted_spec(increase).wf(),
{
}

/// Expanding towards a direction and then shrinking from the same
/// direction with the equal step restores the tree exactly, whenever every
/// ratio has at least one step of slack before the clamp bounds.
pub proof fn lemma_expand_shrink_inverse(t: BspTree, idx: int, horiz: bool)
    requires
        t.ratios_slack(),
        0 <= idx < t.leaves(),
    ensures
        t.adjusted_spec(idx, horiz, true).adjusted_spec(idx, horiz, false) == t,
    decreases t,
{
    match t {
        BspTree::Leaf => {},
        BspTree::Split { horiz: h, ratio, left, right } => {
            let lc = left.leaves() as int;
            if idx < lc {
                if left.has_target(idx, horiz) {
                    let l1 = left.adjusted_spec(idx, horiz, true);
                    lemma_adjusted_props(*left, idx, horiz, true);
                    lemma_same_shape_has_target(l1, *left, idx, horiz);
                    lemma_expand_shrink_inverse(*left, idx, horiz);
                } else if h == horiz {
                    assert(clamp_ratio(ratio + RATIO_STEP) == ratio + RATIO_STEP);
                    assert(clamp_ratio(ratio + RATIO_STEP - RATIO_STEP) == ratio);
                }
            } else {
                if right.has_target(idx - lc, horiz) {
                    let r1 = right.adjusted_spec(idx - lc, horiz, true);
                    lemma_adjusted_props(*right, idx - lc, horiz, true);
                    lemma_same_shape_leaves(r1, *right);
                    lemma_same_shape_has_target(r1, *right, idx - lc, horiz);
                    lemma_expand_shrink_inverse(*right, idx - lc, horiz);
                } else if h == horiz {
                    assert(clamp_ratio(ratio - RATIO_STEP) == ratio - RATIO_STEP);
                    assert(clamp_ratio(ratio - RATIO_STEP + RATIO_STEP) == ratio);
                }
            }
        },
    }
}

/// Same structure and axes, with each pair of corresponding ratios at
/// most `k` apart.
pub open spec fn ratios_within(a: BspTree, b: BspTree, k: int) -> bool
    decreases a,
{
    match (a, b) {
        (BspTree::Leaf, BspTree::Leaf) => true,
        (
            BspTree::Split { horiz: h1, ratio: r1, left: l1, right: rt1 },
            BspTree::Split { horiz: h2, ratio: r2, left: l2, right: rt2 },
        ) => h1 == h2 && -k <= r1 - r2 <= k && ratios_within(*l1, *l2, k) && ratios_within(
            *rt1,
            *rt2,
            k,
        ),
        _ => false,
    }
}

pub proof fn lemma_ratios_within_refl(t: BspTree, k: int)
    requires
        k >= 0,
    ensures
        ratios_within(t, t, k),
    decreases t,
{
    match t {
        BspTree::Leaf => {},
        BspTree::Split { left, right, .. } => {
            lemma_ratios_within_refl(*left, k);
            lemma_ratios_within_refl(*right, k);
        },
    }
}

/// Expanding towards a direction and then shrinking from the same
/// direction with the equal step returns every ratio to within the
/// clamping tolerance of its original value, on a tree of the same
/// shape.
pub proof fn lemma_expand_shrink_tolerance(t: BspTree, idx: int, horiz: bool)
    requires
        t.wf(),
    ensures
        ratios_within(
            t.adjusted_spec(idx, horiz, true).adjusted_spec(idx, horiz, false),
            t,
            RATIO_STEP as int,
        ),
    decreases t,
{
    match t {
        BspTree::Leaf => {},
        BspTree::Split { horiz: h, ratio, left, right } => {
            let lc = left.leaves() as int;
            lemma_ratios_within_refl(*left, RATIO_STEP as int);
            lemma_ratios_within_refl(*right, RATIO_STEP as int);
            if idx < lc {
                if left.has_target(idx, horiz) {
                    let l1 = left.adjusted_spec(idx, horiz, true);
                    lemma_adjusted_props(*left, idx, horiz, true);
                    lemma_same_shape_has_target(l1, *left, idx, horiz);
                    lemma_expand_shrink_tolerance(*left, idx, horiz);
                }
            } else {
                if right.has_target(idx - lc, horiz) {
                    let r1 = right.adjusted_spec(idx - lc, horiz, true);
                    lemma_adjusted_props(*right, idx - lc, horiz, true);
                    lemma_same_shape_leaves(r1, *right);
                    lemma_same_shape_has_target(r1, *right, idx - lc, horiz);
                    lemma_expand_shrink_tolerance(*right, idx - lc, horiz);
                }
            }
        },
    }
}

/// A structurally equal copy of the tree.
pub fn copy_tree(t: &BspTree) -> (r: BspTree)
    ensures
        r == *t,
    decreases *t,
{
    match t {
        BspTree::Leaf => BspTree::Leaf,
        BspTree::Split { horiz, ratio, left, right } => BspTree::Split {
            horiz: *horiz,
            ratio: *ratio,
            left: Box::new(copy_tree(&**left)),
            right: Box::new(copy_tree(&**right)),
        },
    }
}

/// The number of window slots.
pub fn leaves_exec(t: &BspTree) -> (n: usize)
    requires
        t.leaves() <= usize::MAX,
    ensures
        n == t.leaves(),
    decreases *t,
{
    match t {
        BspTree::Leaf => 1,
        BspTree::Split { left, right, .. } => leaves_exec(&**left) + leaves_exec(&**right),
    }
}

/// Build the initial tree for `n` windows.
pub fn build_exec(n: usize, horiz: bool) -> (r: BspTree)
    ensures
        r == build_spec(n as nat, horiz),
    decreases n,
{
    if n <= 1 {
        BspTree::Leaf
    } else {
        BspTree::Split {
            horiz,
            ratio: 50,
            left: Box::new(BspTree::Leaf),
            right: Box::new(build_exec(n - 1, !horiz)),
        }
    }
}

/// The stored tree when its slot count matches `n`, else a fresh one.
pub fn synced_tree(t: &BspTree, n: usize) -> (r: BspTree)
    requires
        t.leaves() <= usize::MAX,
    ensures
        r == sync_spec(*t, n as nat),
{
    if leaves_exec(t) == n {
        copy_tree(t)
    } else {
        build_exec(n, true)
    }
}

/// Whether the path to leaf `idx` passes a split of axis `horiz`.
pub fn has_target_exec(t: &BspTree, idx: usize, horiz: bool) -> (b: bool)
    requires
        t.leaves() <= usize::MAX,
    ensures
        b == t.has_target(idx as int, horiz),
    decreases *t,
{
    match t {
        BspTree::Leaf => false,
        BspTree::Split { horiz: h, left, right, .. } => {
            let lc = leaves_exec(&**left);
            if *h == horiz {
                true
            } else if idx < lc {
                has_target_exec(&**left, idx, horiz)
            } else {
                has_target_exec(&**right, idx - lc, horiz)
            }
        },
    }
}

/// Rotate at the parent of leaf `idx`.
pub fn rotated_exec(t: &BspTree, idx: usize) -> (r: BspTree)
    requires
        t.leaves() <= usize::MAX,
    ensures
        r == t.rotated_spec(idx as int),
    decreases *t,
{
    match t {
        BspTree::Leaf => BspTree::Leaf,
        BspTree::Split { horiz, ratio, left, right } => {
            let lc = leaves_exec(&**left);
            if idx < lc {
                match &**left {
                    BspTree::Leaf => match &**right {
                        BspTree::Split { horiz: h2, ratio: r2, left: rl, right: rr } => {
                            BspTree::Split {
                                horiz: *h2,
                                ratio: *r2,
                                left: Box::new(
                                    BspTree::Split {
                                        horiz: *horiz,
                                        ratio: *ratio,
                                        left: Box::new(BspTree::Leaf),
                                        right: Box::new(copy_tree(&**rl)),
                                    },
                                ),
                                right: Box::new(copy_tree(&**rr)),
                            }
                        },
                        BspTree::Leaf => copy_tree(t),
                    },
                    BspTree::Split { .. } => BspTree::Split {
                        horiz: *horiz,
                        ratio: *ratio,
                        left: Box::new(rotated_exec(&**left, idx)),
                        right: Box::new(copy_tree(&**right)),
                    },
                }
            } else {
                match &**right {
                    BspTree::Leaf => match &**left {
                        BspTree::Split { horiz: h2, ratio: r2, left: ll, right: lr } => {
                            BspTree::Split {
                                horiz: *h2,
                                ratio: *r2,
                                left: Box::new(copy_tree(&**ll)),
                                right: Box::new(
                                    BspTree::Split {
                                        horiz: *horiz,
                                        ratio: *ratio,
                                        left: Box::new(copy_tree(&**lr)),
                                        right: Box::new(BspTree::Leaf),
                                    },
                                ),
                            }
                        },
                        BspTree::Leaf => copy_tree(t),
                    },
                    BspTree::Split { .. } => BspTree::Split {
                        horiz: *horiz,
                        ratio: *ratio,
                        left: Box::new(copy_tree(&**left)),
                        right: Box::new(rotated_exec(&**right, idx - lc)),
                    },
                }
            }
        },
    }
}

/// Exchange the subtree holding leaf `idx` with its sibling.
pub fn swapped_exec(t: &BspTree, idx: usize) -> (r: BspTree)
    requires
        t.leaves() <= usize::MAX,
    ensures
        r == t.swapped_spec(idx as int),
    decreases *t,
{
    match t {
        BspTree::Leaf => BspTree::Leaf,
        BspTree::Split { horiz, ratio, left, right } => {
            let lc = leaves_exec(&**left);
            if idx < lc {
                match &**left {
                    BspTree::Leaf => BspTree::Split {
                        horiz: *horiz,
                        ratio: *ratio,
                        left: Box::new(copy_tree(&**right)),
                        right: Box::new(BspTree::Leaf),
                    },
                    BspTree::Split { .. } => BspTree::Split {
                        horiz: *horiz,
                        ratio: *ratio,
                        left: Box::new(swapped_exec(&**left, idx)),
                        right: Box::new(copy_tree(&**right)),
                    },
                }
            } else {
                match &**right {
                    BspTree::Leaf => BspTree::Split {
                        horiz: *horiz,
                        ratio: *ratio,
                        left: Box::new(BspTree::Leaf),
                        right: Box::new(copy_tree(&**left)),
                    },
                    BspTree::Split { .. } => BspTree::Split {
                        horiz: *horiz,
                        ratio: *ratio,
                        left: Box::new(copy_tree(&**left)),
                        right: Box::new(swapped_exec(&**right, idx - lc)),
                    },
                }
            }
        },
    }
}

/// One clamped ratio step up or down.
pub fn step_ratio(r: u32, up: bool) -> (v: u32)
    ensures
        v == clamp_ratio(r as int + if up {
            RATIO_STEP as int
        } else {
            -(RATIO_STEP as int)
        }),
{
    if up {
        if r >= RATIO_MAX - RATIO_STEP {
            RATIO_MAX
        } else if r + RATIO_STEP < RATIO_MIN {
            RATIO_MIN
        } else {
            r + RATIO_STEP
        }
    } else {
        if r <= RATIO_MIN + RATIO_STEP {
            RATIO_MIN
        } else if r > RATIO_MAX + RATIO_STEP {
            RATIO_MAX
        } else {
            r - RATIO_STEP
        }
    }
}

/// Adjust the nearest matching ancestor of leaf `idx`.
pub fn adjusted_exec(t: &BspTree, idx: usize, horiz: bool, grow: bool) -> (r: BspTree)
    requires
        t.leaves() <= usize::MAX,
    ensures
        r == t.adjusted_spec(idx as int, horiz, grow),
    decreases *t,
{
    match t {
        BspTree::Leaf => BspTree::Leaf,
        BspTree::Split { horiz: h, ratio, left, right } => {
            let lc = leaves_exec(&**left);
            if idx < lc {
                if has_target_exec(&**left, idx, horiz) {
                    BspTree::Split {
                        horiz: *h,
                        ratio: *ratio,
                        left: Box::new(adjusted_exec(&**left, idx, horiz, grow)),
                        right: Box::new(copy_tree(&**right)),
                    }
                } else if *h == horiz {
                    BspTree::Split {
                        horiz: *h,
                        ratio: step_ratio(*ratio, grow),
                        left: Box::new(copy_tree(&**left)),
                        right: Box::new(copy_tree(&**right)),
                    }
                } else {
                    copy_tree(t)
                }
            } else {
                if has_target_exec(&**right, idx - lc, horiz) {
                    BspTree::Split {
                        horiz: *h,
                        ratio: *ratio,
                        left: Box::new(copy_tree(&**left)),
                        right: Box::new(adjusted_exec(&**right, idx - lc, horiz, grow)),
                    }
                } else if *h == horiz {
                    BspTree::Split {
                        horiz: *h,
                        ratio: step_ratio(*ratio, !grow),
                        left: Box::new(copy_tree(&**left)),
                        right: Box::new(copy_tree(&**right)),
                    }
                } else {
                    copy_tree(t)
                }
            }
        },
    }
}

/// Adjust the root split ratio by one clamped step.
pub fn root_adjusted_exec(t: &BspTree, increase: bool) -> (r: BspTree)
    requires
        t.leaves() <= usize::MAX,
    ensures
        r == t.root_adjusted_spec(increase),
{
    match t {
        BspTree::Leaf => BspTree::Leaf,
        BspTree::Split { horiz, ratio, left, right } => BspTree::Split {
            horiz: *horiz,
            ratio: step_ratio(*ratio, increase),
            left: Box::new(copy_tree(&**left)),
            right: Box::new(copy_tree(&**right)),
        },
    }
}

/// Place `ws[lo..hi]` through the tree into `r`, appending to `out`.
fn place_rec(
    t: &BspTree,
    ws: &Vec<Window>,
    lo: usize,
    hi: usize,
    r: Rectangle,
    out: &mut Vec<(Window, Rectangle)>,
)
    requires
        r.wf(),
        lo <= hi <= ws@.len(),
        hi - lo == t.leaves(),
    ensures
        final(out)@ == old(out)@ + bsp_place(*t, ws@.subrange(lo as int, hi as int), r),
    decreases *t,
{
    match t {
        BspTree::Leaf => {
            out.push((ws[lo], r));
            proof {
                assert(out@ =~= old(out)@ + bsp_place(
                    *t,
                    ws@.subrange(lo as int, hi as int),
                    r,
                ));
            }
        },
        BspTree::Split { horiz, ratio, left, right } => {
            let lc = leaves_exec(&**left);
            let halves = split_exec(r, *horiz, *ratio);
            proof {
                lemma_split_partitions(r, *horiz, *ratio);
            }
            place_rec(&**left, ws, lo, lo + lc, halves.0, out);
            place_rec(&**right, ws, lo + lc, hi, halves.1, out);
            proof {
                let sub = ws@.subrange(lo as int, hi as int);
                assert(ws@.subrange(lo as int, lo + lc) =~= sub.take(lc as int));
                assert(ws@.subrange(lo + lc, hi as int) =~= sub.skip(lc as int));
                assert(out@ =~= old(out)@ + bsp_place(*t, sub, r));
            }
        },
    }
}

/// Compute the placements of `ws` on `r` through the partition tree,
/// synchronising the tree to the window count first.
pub fn bsp_apply(t: &BspTree, ws: &Vec<Window>, r: Rectangle) -> (out: Vec<(Window, Rectangle)>)
    requires
        r.wf(),
        t.leaves() <= usize::MAX,
    ensures
        out@ == bsp_apply_spec(*t, ws@, r),
{
    let mut out: Vec<(Window, Rectangle)> = Vec::new();
    if ws.len() == 0 {
        proof {
            assert(out@ =~= bsp_apply_spec(*t, ws@, r));
        }
        return out;
    }
    let tree = synced_tree(t, ws.len());
    proof {
        lemma_build_props(ws@.len(), true);
    }
    place_rec(&tree, ws, 0, ws.len(), r, &mut out);
    proof {
        assert(ws@.subrange(0, ws@.len() as int) =~= ws@);
        assert(out@ =~= bsp_apply_spec(*t, ws@, r));
    }
    out
}

} // verus!
