//! The layout capability: concrete tiling algorithms, the decorators that
//! wrap them, and the cycling collection, with the message protocol that
//! reconfigures them at runtime.

use vstd::prelude::*;
use crate::bsp::BinarySpacePartition;
use crate::bsp::BspTree;
use crate::bsp::bsp_apply;
use crate::bsp::bsp_apply_spec;
use crate::bsp::copy_tree;
use crate::bsp::lemma_adjusted_props;
use crate::bsp::lemma_build_props;
use crate::bsp::lemma_root_adjusted_props;
use crate::bsp::lemma_rotated_props;
use crate::bsp::lemma_swapped_props;
use crate::bsp::adjusted_exec;
use crate::bsp::root_adjusted_exec;
use crate::bsp::rotated_exec;
use crate::bsp::swapped_exec;
use crate::bsp::split_exec;
use crate::bsp::split_rect;
use crate::bsp::sync_spec;
use crate::bsp::synced_tree;
use crate::bsp::lemma_split_partitions;
use crate::geometry::Direction;
use crate::geometry::EdgeSet;
use crate::geometry::Rectangle;
use crate::geometry::Struts;
use crate::messages::LayoutMessage;
use crate::stack::Stack;
use crate::stack::StackView;
use crate::stack::Window;
use crate::stack::opt_stack_view;

verus! {

broadcast use vstd::std_specs::vec::group_vec_axioms, vstd::seq::group_seq_axioms;

/// Fixed step, in pixels, by which a gap decorator's margin is adjusted.
pub const GAP_STEP: u32 = 2;

/// Places every window at the full screen rectangle; only the focused,
/// topmost window is meaningfully visible.
#[derive(Clone, Copy, Debug)]
pub struct FullLayout;

/// Master-and-stack tiling: the first `num_master` windows share a left
/// column of `ratio` percent of the width, the rest share the remainder.
#[derive(Clone, Copy, Debug)]
pub struct TallLayout {
    pub increment_ratio: u32,
    pub num_master: usize,
    pub ratio: u32,
}

/// Wraps an inner layout with the two screen axes exchanged.
#[derive(Debug)]
pub struct MirrorLayout {
    pub inner: Box<Layout>,
}

/// Wraps an inner layout and shrinks each produced rectangle by a pixel
/// margin on all sides.
#[derive(Debug)]
pub struct GapLayout {
    pub gap: u32,
    pub inner: Box<Layout>,
}

/// Wraps an inner layout and removes the reserved strut space at the
/// configured screen edges before delegating.
#[derive(Debug)]
pub struct AvoidStrutsLayout {
    pub edges: EdgeSet,
    pub inner: Box<Layout>,
}

/// Wraps an inner layout and carries the border width the window-system
/// collaborator should draw around each placed window.
#[derive(Debug)]
pub struct WithBordersLayout {
    pub border: u32,
    pub inner: Box<Layout>,
}

/// An ordered collection of layouts with one current; `Next` and `Prev`
/// cycle through them without resetting their configuration.
#[derive(Debug)]
pub struct LayoutCollection {
    pub layouts: Vec<Layout>,
    pub index: usize,
}

/// A borderless window decorator: borders of width zero.
#[derive(Clone, Copy, Debug)]
pub struct NoBordersLayout;

/// A layout instance: one of the concrete algorithms or a decorator
/// around another layout.
#[derive(Debug)]
pub enum Layout {
    Bsp(BinarySpacePartition),
    Full(FullLayout),
    Tall(TallLayout),
    Mirror(MirrorLayout),
    Gap(GapLayout),
    AvoidStruts(AvoidStrutsLayout),
    WithBorders(WithBordersLayout),
    Collection(LayoutCollection),
}

/// The mathematical content of a `Layout`.
#[verifier::ext_equal]
pub enum LayoutView {
    Bsp(BspTree),
    Full,
    Tall { increment_ratio: u32, num_master: usize, ratio: u32 },
    Mirror(Box<LayoutView>),
    Gap { gap: u32, inner: Box<LayoutView> },
    AvoidStruts { edges: EdgeSet, inner: Box<LayoutView> },
    WithBorders { border: u32, inner: Box<LayoutView> },
    Collection { layouts: Seq<LayoutView>, index: int },
}

/// The views of a sequence of layouts, elementwise.
pub open spec fn layouts_view(s: Seq<Layout>) -> Seq<LayoutView>
    decreases s,
{
    if s.len() == 0 {
        Seq::empty()
    } else {
        seq![layout_view(s[0])] + layouts_view(s.skip(1))
    }
}

pub proof fn lemma_layouts_view(s: Seq<Layout>)
    ensures
        layouts_view(s).len() == s.len(),
        forall|i: int| 0 <= i < s.len() ==> layouts_view(s)[i] == layout_view(#[trigger] s[i]),
    decreases s.len(),
{
    if s.len() > 0 {
        lemma_layouts_view(s.skip(1));
        assert forall|i: int| 0 <= i < s.len() implies layouts_view(s)[i] == layout_view(
            #[trigger] s[i],
        ) by {
            if i > 0 {
                assert(s.skip(1)[i - 1] == s[i]);
                assert(layouts_view(s)[i] == layouts_view(s.skip(1))[i - 1]);
            }
        }
    }
}

pub open spec fn layout_view(l: Layout) -> LayoutView
    decreases l,
{
    match l {
        Layout::Bsp(b) => LayoutView::Bsp(b.tree),
        Layout::Full(_) => LayoutView::Full,
        Layout::Tall(t) => LayoutView::Tall {
            increment_ratio: t.increment_ratio,
            num_master: t.num_master,
            ratio: t.ratio,
        },
        Layout::Mirror(m) => LayoutView::Mirror(Box::new(layout_view(*m.inner))),
        Layout::Gap(g) => LayoutView::Gap { gap: g.gap, inner: Box::new(layout_view(*g.inner)) },
        Layout::AvoidStruts(a) => LayoutView::AvoidStruts {
            edges: a.edges,
            inner: Box::new(layout_view(*a.inner)),
        },
        Layout::WithBorders(b) => LayoutView::WithBorders {
            border: b.border,
            inner: Box::new(layout_view(*b.inner)),
        },
        Layout::Collection(c) => LayoutView::Collection {
            layouts: layouts_view(c.layouts@),
            index: c.index as int,
        },
    }
}

impl View for Layout {
    type V = LayoutView;

    open spec fn view(&self) -> LayoutView {
        layout_view(*self)
    }
}

/// The view of an optional layout.
pub open spec fn opt_layout_view(l: Option<Layout>) -> Option<LayoutView> {
    match l {
        Some(x) => Some(layout_view(x)),
        None => None,
    }
}

impl LayoutView {
    /// Ratios clamped, collection indices in range, collections nonempty,
    /// and tree slot counts representable.
    pub open spec fn wf(self) -> bool
        decreases self,
    {
        match self {
            LayoutView::Bsp(tree) => tree.wf() && tree.leaves() <= usize::MAX,
            LayoutView::Full => true,
            LayoutView::Tall { .. } => true,
            LayoutView::Mirror(inner) => inner.wf(),
            LayoutView::Gap { inner, .. } => inner.wf(),
            LayoutView::AvoidStruts { inner, .. } => inner.wf(),
            LayoutView::WithBorders { inner, .. } => inner.wf(),
            LayoutView::Collection { layouts, index } => layouts.len() > 0 && 0 <= index
                < layouts.len() && (forall|i: int|
                0 <= i < layouts.len() ==> (#[trigger] layouts[i]).wf()),
        }
    }
}

/// One row of a column of `n` stacked windows inside `r`: each gets an
/// equal share of the height, the last absorbing the rounding remainder.
pub open spec fn row_rect(r: Rectangle, i: int, n: int) -> Rectangle {
    let rh = (r.height as int) / n;
    Rectangle {
        x: r.x,
        y: (r.y + i * rh) as u32,
        width: r.width,
        height: if i == n - 1 {
            (r.height - (n - 1) * rh) as u32
        } else {
            rh as u32
        },
    }
}

/// The windows stacked vertically inside `r`, in order.
pub open spec fn column_spec(ws: Seq<Window>, r: Rectangle) -> Seq<(Window, Rectangle)> {
    Seq::new(ws.len(), |i: int| (ws[i], row_rect(r, i, ws.len() as int)))
}

/// Placement of the tall layout.
pub open spec fn tall_apply_spec(
    ratio: u32,
    num_master: usize,
    ws: Seq<Window>,
    screen: Rectangle,
) -> Seq<(Window, Rectangle)> {
    if ws.len() == 0 {
        Seq::empty()
    } else if num_master == 0 || ws.len() <= num_master {
        column_spec(ws, screen)
    } else {
        let halves = split_rect(screen, true, ratio);
        column_spec(ws.take(num_master as int), halves.0) + column_spec(
            ws.skip(num_master as int),
            halves.1,
        )
    }
}

/// Each rectangle of a placement, mirrored.
pub open spec fn mirror_rects(s: Seq<(Window, Rectangle)>) -> Seq<(Window, Rectangle)> {
    Seq::new(s.len(), |i: int| (s[i].0, s[i].1.mirrored_spec()))
}

/// Each rectangle of a placement, shrunk by the gap margin.
pub open spec fn gap_rects(s: Seq<(Window, Rectangle)>, gap: u32) -> Seq<(Window, Rectangle)> {
    Seq::new(s.len(), |i: int| (s[i].0, s[i].1.shrunk_spec(gap)))
}

/// What a layout produces for the given windows, screen and struts: one
/// placement per window, in order.
pub open spec fn apply_spec(
    l: LayoutView,
    ws: Seq<Window>,
    screen: Rectangle,
    struts: Struts,
) -> Seq<(Window, Rectangle)>
    decreases l,
{
    match l {
        LayoutView::Bsp(tree) => bsp_apply_spec(tree, ws, screen),
        LayoutView::Full => Seq::new(ws.len(), |i: int| (ws[i], screen)),
        LayoutView::Tall { ratio, num_master, .. } => tall_apply_spec(
            ratio,
            num_master,
            ws,
            screen,
        ),
        LayoutView::Mirror(inner) => mirror_rects(
            apply_spec(*inner, ws, screen.mirrored_spec(), struts.mirrored_spec()),
        ),
        LayoutView::Gap { gap, inner } => gap_rects(apply_spec(*inner, ws, screen, struts), gap),
        LayoutView::AvoidStruts { edges, inner } => apply_spec(
            *inner,
            ws,
            screen.avoided_spec(edges, struts),
            struts,
        ),
        LayoutView::WithBorders { inner, .. } => apply_spec(*inner, ws, screen, struts),
        LayoutView::Collection { layouts, index } => if 0 <= index < layouts.len() {
            apply_spec(layouts[index], ws, screen, struts)
        } else {
            Seq::empty()
        },
    }
}

/// What a layout becomes on receiving a message: `None` when the message
/// does not apply, else the replacement layout.
pub open spec fn handle_spec(
    l: LayoutView,
    msg: LayoutMessage,
    st: Option<StackView>,
) -> Option<LayoutView>
    decreases l,
{
    match l {
        LayoutView::Bsp(tree) => match msg {
            LayoutMessage::Increase => Some(LayoutView::Bsp(tree.root_adjusted_spec(true))),
            LayoutMessage::Decrease => Some(LayoutView::Bsp(tree.root_adjusted_spec(false))),
            LayoutMessage::TreeRotate => match st {
                Some(s) => Some(LayoutView::Bsp(sync_spec(tree, s.len()).rotated_spec(s.idx()))),
                None => None,
            },
            LayoutMessage::TreeSwap => match st {
                Some(s) => Some(LayoutView::Bsp(sync_spec(tree, s.len()).swapped_spec(s.idx()))),
                None => None,
            },
            LayoutMessage::TreeExpandTowards(d) => match st {
                Some(s) => Some(
                    LayoutView::Bsp(
                        sync_spec(tree, s.len()).adjusted_spec(
                            s.idx(),
                            d.is_horizontal_spec(),
                            true,
                        ),
                    ),
                ),
                None => None,
            },
            LayoutMessage::TreeShrinkFrom(d) => match st {
                Some(s) => Some(
                    LayoutView::Bsp(
                        sync_spec(tree, s.len()).adjusted_spec(
                            s.idx(),
                            d.is_horizontal_spec(),
                            false,
                        ),
                    ),
                ),
                None => None,
            },
            _ => None,
        },
        LayoutView::Full => None,
        LayoutView::Tall { increment_ratio, num_master, ratio } => match msg {
            LayoutMessage::Increase => Some(
                LayoutView::Tall {
                    increment_ratio,
                    num_master,
                    ratio: if ratio + increment_ratio > 100 {
                        100u32
                    } else {
                        (ratio + increment_ratio) as u32
                    },
                },
            ),
            LayoutMessage::Decrease => Some(
                LayoutView::Tall {
                    increment_ratio,
                    num_master,
                    ratio: if ratio < increment_ratio {
                        0u32
                    } else {
                        (ratio - increment_ratio) as u32
                    },
                },
            ),
            LayoutMessage::IncreaseMaster => Some(
                LayoutView::Tall {
                    increment_ratio,
                    num_master: if num_master < usize::MAX {
                        (num_master + 1) as usize
                    } else {
                        num_master
                    },
                    ratio,
                },
            ),
            LayoutMessage::DecreaseMaster => Some(
                LayoutView::Tall {
                    increment_ratio,
                    num_master: if num_master > 1 {
                        (num_master - 1) as usize
                    } else {
                        1usize
                    },
                    ratio,
                },
            ),
            _ => None,
        },
        LayoutView::Mirror(inner) => match handle_spec(*inner, msg.mirrored_spec(), st) {
            Some(i2) => Some(LayoutView::Mirror(Box::new(i2))),
            None => None,
        },
        LayoutView::Gap { gap, inner } => match msg {
            LayoutMessage::IncreaseGap => Some(
                LayoutView::Gap {
                    gap: if gap + GAP_STEP > u32::MAX {
                        u32::MAX
                    } else {
                        (gap + GAP_STEP) as u32
                    },
                    inner,
                },
            ),
            LayoutMessage::DecreaseGap => Some(
                LayoutView::Gap {
                    gap: if gap < GAP_STEP {
                        0u32
                    } else {
                        (gap - GAP_STEP) as u32
                    },
                    inner,
                },
            ),
            _ => match handle_spec(*inner, msg, st) {
                Some(i2) => Some(LayoutView::Gap { gap, inner: Box::new(i2) }),
                None => None,
            },
        },
        LayoutView::AvoidStruts { edges, inner } => match handle_spec(*inner, msg, st) {
            Some(i2) => Some(LayoutView::AvoidStruts { edges, inner: Box::new(i2) }),
            None => None,
        },
        LayoutView::WithBorders { border, inner } => match handle_spec(*inner, msg, st) {
            Some(i2) => Some(LayoutView::WithBorders { border, inner: Box::new(i2) }),
            None => None,
        },
        LayoutView::Collection { layouts, index } => match msg {
            LayoutMessage::Next => Some(
                LayoutView::Collection {
                    layouts,
                    index: if index + 1 < layouts.len() {
                        index + 1
                    } else {
                        0
                    },
                },
            ),
            LayoutMessage::Prev => Some(
                LayoutView::Collection {
                    layouts,
                    index: if index == 0 {
                        layouts.len() - 1
                    } else {
                        index - 1
                    },
                },
            ),
            _ => if 0 <= index < layouts.len() {
                match handle_spec(layouts[index], msg, st) {
                    Some(l2) => Some(
                        LayoutView::Collection { layouts: layouts.update(index, l2), index },
                    ),
                    None => None,
                }
            } else {
                None
            },
        },
    }
}

/// Every layout places every input window exactly once, in stack order:
/// the placements line up one to one with the window list.
pub proof fn lemma_apply_places_each_window_once(
    l: LayoutView,
    ws: Seq<Window>,
    screen: Rectangle,
    struts: Struts,
)
    requires
        l.wf(),
        screen.wf(),
    ensures
        apply_spec(l, ws, screen, struts).len() == ws.len(),
        forall|i: int|
            0 <= i < ws.len() ==> (#[trigger] apply_spec(l, ws, screen, struts)[i]).0 == ws[i],
    decreases l,
{
    let res = apply_spec(l, ws, screen, struts);
    match l {
        LayoutView::Bsp(tree) => {
            if ws.len() > 0 {
                crate::bsp::lemma_bsp_apply_partitions(tree, ws, screen);
                assert forall|i: int| 0 <= i < ws.len() implies (#[trigger] res[i]).0
                    == ws[i] by {
                    assert(res[i] == bsp_apply_spec(tree, ws, screen)[i]);
                }
            }
        },
        LayoutView::Full => {},
        LayoutView::Tall { ratio, num_master, .. } => {
            if ws.len() > 0 && num_master > 0 && ws.len() > num_master {
                assert forall|i: int| 0 <= i < ws.len() implies (#[trigger] res[i]).0
                    == ws[i] by {
                    let halves = split_rect(screen, true, ratio);
                    if i < num_master {
                        assert(res[i] == column_spec(ws.take(num_master as int), halves.0)[i]);
                    } else {
                        assert(res[i] == column_spec(ws.skip(num_master as int), halves.1)[i
                            - num_master]);
                    }
                }
            }
        },
        LayoutView::Mirror(inner) => {
            lemma_apply_places_each_window_once(
                *inner,
                ws,
                screen.mirrored_spec(),
                struts.mirrored_spec(),
            );
            let sub = apply_spec(*inner, ws, screen.mirrored_spec(), struts.mirrored_spec());
            assert forall|i: int| 0 <= i < ws.len() implies (#[trigger] res[i]).0 == ws[i] by {
                assert(res[i].0 == sub[i].0);
            }
        },
        LayoutView::Gap { gap, inner } => {
            lemma_apply_places_each_window_once(*inner, ws, screen, struts);
            let sub = apply_spec(*inner, ws, screen, struts);
            assert forall|i: int| 0 <= i < ws.len() implies (#[trigger] res[i]).0 == ws[i] by {
                assert(res[i].0 == sub[i].0);
            }
        },
        LayoutView::AvoidStruts { edges, inner } => {
            lemma_apply_places_each_window_once(
                *inner,
                ws,
                screen.avoided_spec(edges, struts),
                struts,
            );
            let sub = apply_spec(*inner, ws, screen.avoided_spec(edges, struts), struts);
            assert forall|i: int| 0 <= i < ws.len() implies (#[trigger] res[i]).0 == ws[i] by {
                assert(res[i] == sub[i]);
            }
        },
        LayoutView::WithBorders { inner, .. } => {
            lemma_apply_places_each_window_once(*inner, ws, screen, struts);
            let sub = apply_spec(*inner, ws, screen, struts);
            assert forall|i: int| 0 <= i < ws.len() implies (#[trigger] res[i]).0 == ws[i] by {
                assert(res[i] == sub[i]);
            }
        },
        LayoutView::Collection { layouts, index } => {
            assert(0 <= index < layouts.len());
            lemma_apply_places_each_window_once(layouts[index], ws, screen, struts);
            let sub = apply_spec(layouts[index], ws, screen, struts);
            assert forall|i: int| 0 <= i < ws.len() implies (#[trigger] res[i]).0 == ws[i] by {
                assert(res[i] == sub[i]);
            }
        },
    }
}

/// Every rectangle a layout places on a well-formed screen is well
/// formed.
pub proof fn lemma_apply_wf(l: LayoutView, ws: Seq<Window>, screen: Rectangle, struts: Struts)
    requires
        screen.wf(),
    ensures
        forall|i: int|
            0 <= i < apply_spec(l, ws, screen, struts).len() ==> (#[trigger] apply_spec(
                l,
                ws,
                screen,
                struts,
            )[i]).1.wf(),
    decreases l,
{
    let res = apply_spec(l, ws, screen, struts);
    match l {
        LayoutView::Bsp(tree) => {
            if ws.len() > 0 {
                crate::bsp::lemma_bsp_apply_partitions(tree, ws, screen);
                assert(bsp_apply_spec(tree, ws, screen).len() == ws.len());
                assert forall|i: int| 0 <= i < res.len() implies (#[trigger] res[i]).1.wf() by {
                    assert(res[i] == bsp_apply_spec(tree, ws, screen)[i]);
                    assert(bsp_apply_spec(tree, ws, screen)[i].1.wf());
                }
            } else {
                assert(res.len() == 0);
            }
        },
        LayoutView::Full => {},
        LayoutView::Tall { ratio, num_master, .. } => {
            lemma_split_partitions(screen, true, ratio);
            let halves = split_rect(screen, true, ratio);
            lemma_column_bounds(screen, ws.len() as int);
            lemma_column_bounds(halves.0, num_master as int);
            lemma_column_bounds(halves.1, ws.len() - num_master);
            let nlen = ws.len() as int;
            assert forall|i: int| 0 <= i < res.len() implies (#[trigger] res[i]).1.wf() by {
                if ws.len() == 0 {
                } else if num_master == 0 || ws.len() <= num_master {
                    assert(res[i].1 == row_rect(screen, i, nlen));
                } else if i < num_master {
                    assert(res[i].1 == row_rect(halves.0, i, num_master as int));
                } else {
                    assert(res[i] == column_spec(ws.skip(num_master as int), halves.1)[i
                        - num_master]);
                    assert(res[i].1 == row_rect(halves.1, i - num_master, nlen - num_master));
                }
            }
        },
        LayoutView::Mirror(inner) => {
            lemma_apply_wf(*inner, ws, screen.mirrored_spec(), struts.mirrored_spec());
            let sub = apply_spec(*inner, ws, screen.mirrored_spec(), struts.mirrored_spec());
            assert forall|i: int| 0 <= i < res.len() implies (#[trigger] res[i]).1.wf() by {
                assert(res[i].1 == sub[i].1.mirrored_spec());
                assert(sub[i].1.wf());
            }
        },
        LayoutView::Gap { gap, inner } => {
            lemma_apply_wf(*inner, ws, screen, struts);
            let sub = apply_spec(*inner, ws, screen, struts);
            assert forall|i: int| 0 <= i < res.len() implies (#[trigger] res[i]).1.wf() by {
                assert(res[i].1 == sub[i].1.shrunk_spec(gap));
                assert(sub[i].1.wf());
            }
        },
        LayoutView::AvoidStruts { edges, inner } => {
            lemma_apply_wf(*inner, ws, screen.avoided_spec(edges, struts), struts);
            let sub = apply_spec(*inner, ws, screen.avoided_spec(edges, struts), struts);
            assert forall|i: int| 0 <= i < res.len() implies (#[trigger] res[i]).1.wf() by {
                assert(res[i] == sub[i]);
                assert(sub[i].1.wf());
            }
        },
        LayoutView::WithBorders { inner, .. } => {
            lemma_apply_wf(*inner, ws, screen, struts);
            let sub = apply_spec(*inner, ws, screen, struts);
            assert forall|i: int| 0 <= i < res.len() implies (#[trigger] res[i]).1.wf() by {
                assert(res[i] == sub[i]);
                assert(sub[i].1.wf());
            }
        },
        LayoutView::Collection { layouts, index } => {
            if 0 <= index < layouts.len() {
                lemma_apply_wf(layouts[index], ws, screen, struts);
                let sub = apply_spec(layouts[index], ws, screen, struts);
                assert forall|i: int| 0 <= i < res.len() implies (#[trigger] res[i]).1.wf() by {
                    assert(res[i] == sub[i]);
                    assert(sub[i].1.wf());
                }
            }
        },
    }
}

/// Bounds of the equal-share rows of a column of `n` windows.
pub proof fn lemma_column_bounds(r: Rectangle, n: int)
    requires
        r.wf(),
    ensures
        n >= 1 ==> 0 <= (r.height as int) / n,
        n >= 1 ==> forall|i: int| 0 <= i < n ==> 0 <= #[trigger] (i * ((r.height as int) / n))
            && (i + 1) * ((r.height as int) / n) <= r.height,
        n >= 1 ==> forall|i: int| 0 <= i < n ==> (#[trigger] row_rect(r, i, n)).wf(),
{
    if n >= 1 {
        let h = r.height as int;
        let rh = h / n;
        vstd::arithmetic::div_mod::lemma_div_of0(n);
        vstd::arithmetic::div_mod::lemma_div_is_ordered(0, h, n);
        vstd::arithmetic::div_mod::lemma_fundamental_div_mod(h, n);
        vstd::arithmetic::div_mod::lemma_mod_bound(h, n);
        assert(n * rh <= h);
        assert forall|i: int| 0 <= i < n implies 0 <= #[trigger] (i * rh) && (i + 1) * rh
            <= r.height by {
            vstd::arithmetic::mul::lemma_mul_nonnegative(i, rh);
            vstd::arithmetic::mul::lemma_mul_inequality(i + 1, n, rh);
            vstd::arithmetic::mul::lemma_mul_is_commutative(i + 1, rh);
            vstd::arithmetic::mul::lemma_mul_is_commutative(n, rh);
        }
        assert forall|i: int| 0 <= i < n implies (#[trigger] row_rect(r, i, n)).wf() by {
            assert(0 <= i * rh && (i + 1) * rh <= r.height);
            vstd::arithmetic::mul::lemma_mul_is_distributive_add_other_way(rh, i, 1);
            if i == n - 1 {
                vstd::arithmetic::mul::lemma_mul_is_distributive_add_other_way(rh, n - 1, 1);
            }
        }
    }
}

/// Append the column of `ws[lo..hi]` stacked inside `r`.
fn column_push(
    out: &mut Vec<(Window, Rectangle)>,
    ws: &Vec<Window>,
    lo: usize,
    hi: usize,
    r: Rectangle,
)
    requires
        r.wf(),
        lo < hi <= ws@.len(),
    ensures
        final(out)@ == old(out)@ + column_spec(ws@.subrange(lo as int, hi as int), r),
{
    let n = hi - lo;
    let rh = ((r.height as u64) / (n as u64)) as u32;
    proof {
        let hh = (r.height as int) / (n as int);
        vstd::arithmetic::div_mod::lemma_fundamental_div_mod(r.height as int, n as int);
        vstd::arithmetic::div_mod::lemma_mod_bound(r.height as int, n as int);
        vstd::arithmetic::div_mod::lemma_div_of0(n as int);
        vstd::arithmetic::div_mod::lemma_div_is_ordered(0, r.height as int, n as int);
        assert((n as int) * hh <= r.height);
        assert forall|k: int|
            0 <= k < n implies 0 <= #[trigger] (k * ((r.height as int) / (n as int))) && (k + 1)
            * ((r.height as int) / (n as int)) <= r.height by {
            vstd::arithmetic::mul::lemma_mul_nonnegative(k, hh);
            vstd::arithmetic::mul::lemma_mul_inequality(k + 1, n as int, hh);
            vstd::arithmetic::mul::lemma_mul_is_commutative(k + 1, hh);
            vstd::arithmetic::mul::lemma_mul_is_commutative(n as int, hh);
        }
        vstd::arithmetic::mul::lemma_mul_inequality(1, n as int, hh);
        vstd::arithmetic::mul::lemma_mul_is_commutative(1, hh);
        vstd::arithmetic::mul::lemma_mul_is_commutative(n as int, hh);
        assert(hh <= r.height);
    }
    let col = Ghost(column_spec(ws@.subrange(lo as int, hi as int), r));
    let mut i: usize = 0;
    while i < n
        invariant
            0 <= i <= n,
            n == hi - lo,
            lo < hi <= ws@.len(),
            r.wf(),
            rh == (r.height as int) / (n as int),
            col@ == column_spec(ws@.subrange(lo as int, hi as int), r),
            col@.len() == n,
            out@ == old(out)@ + col@.take(i as int),
            forall|k: int| 0 <= k < n ==> 0 <= #[trigger] (k * ((r.height as int) / (n as int)))
                && (k + 1) * ((r.height as int) / (n as int)) <= r.height,
        decreases n - i,
    {
        proof {
            let hh = (r.height as int) / (n as int);
            assert(0 <= (i as int) * hh);
            vstd::arithmetic::mul::lemma_mul_inequality(i as int, i as int + 1, hh);
            assert((i as int) * hh <= r.height);
            assert(rh as int == hh);
            if i == n - 1 {
                vstd::arithmetic::mul::lemma_mul_inequality(i as int, n as int, hh);
            }
        }
        let y = r.y + ((i as u64) * (rh as u64)) as u32;
        let h = if i == n - 1 {
            r.height - (((n - 1) as u64) * (rh as u64)) as u32
        } else {
            rh
        };
        let rect = Rectangle { x: r.x, y, width: r.width, height: h };
        out.push((ws[lo + i], rect));
        proof {
            assert(rect == row_rect(r, i as int, n as int));
            assert(col@[i as int] == (ws@[lo + i], rect));
            assert(out@ =~= old(out)@ + col@.take(i + 1));
        }
        i += 1;
    }
    proof {
        assert(col@.take(n as int) =~= col@);
    }
}

/// Placement of the tall layout.
fn tall_exec(ratio: u32, num_master: usize, ws: &Vec<Window>, screen: Rectangle) -> (out: Vec<
    (Window, Rectangle),
>)
    requires
        screen.wf(),
    ensures
        out@ == tall_apply_spec(ratio, num_master, ws@, screen),
{
    let mut out: Vec<(Window, Rectangle)> = Vec::new();
    let n = ws.len();
    if n == 0 {
        proof {
            assert(out@ =~= tall_apply_spec(ratio, num_master, ws@, screen));
        }
        return out;
    }
    if num_master == 0 || n <= num_master {
        column_push(&mut out, ws, 0, n, screen);
        proof {
            assert(ws@.subrange(0, n as int) =~= ws@);
            assert(out@ =~= tall_apply_spec(ratio, num_master, ws@, screen));
        }
        out
    } else {
        let halves = split_exec(screen, true, ratio);
        proof {
            lemma_split_partitions(screen, true, ratio);
        }
        column_push(&mut out, ws, 0, num_master, halves.0);
        column_push(&mut out, ws, num_master, n, halves.1);
        proof {
            assert(ws@.subrange(0, num_master as int) =~= ws@.take(num_master as int));
            assert(ws@.subrange(num_master as int, n as int) =~= ws@.skip(num_master as int));
            assert(out@ =~= tall_apply_spec(ratio, num_master, ws@, screen));
        }
        out
    }
}

/// Elementwise independent copies of a list of layouts.
fn copy_layouts(v: &Vec<Layout>) -> (r: Vec<Layout>)
    ensures
        r@.len() == v@.len(),
        forall|i: int| 0 <= i < v@.len() ==> layout_view(#[trigger] r@[i]) == layout_view(v@[i]),
    decreases *v,
{
    let mut r: Vec<Layout> = Vec::new();
    let mut i: usize = 0;
    while i < v.len()
        invariant
            i <= v@.len(),
            r@.len() == i,
            forall|j: int| 0 <= j < i ==> layout_view(#[trigger] r@[j]) == layout_view(v@[j]),
        decreases v@.len() - i,
    {
        r.push(v[i].copy());
        i += 1;
    }
    r
}

impl Layout {
    /// An independent copy with the same mathematical content, so that
    /// cloning a workspace does not alias mutable layout state.
    pub fn copy(&self) -> (r: Layout)
        ensures
            r@ == self@,
        decreases *self,
    {
        match self {
            Layout::Bsp(b) => Layout::Bsp(BinarySpacePartition { tree: copy_tree(&b.tree) }),
            Layout::Full(_) => Layout::Full(FullLayout),
            Layout::Tall(t) => Layout::Tall(
                TallLayout {
                    increment_ratio: t.increment_ratio,
                    num_master: t.num_master,
                    ratio: t.ratio,
                },
            ),
            Layout::Mirror(m) => Layout::Mirror(MirrorLayout { inner: Box::new(m.inner.copy()) }),
            Layout::Gap(g) => Layout::Gap(
                GapLayout { gap: g.gap, inner: Box::new(g.inner.copy()) },
            ),
            Layout::AvoidStruts(a) => Layout::AvoidStruts(
                AvoidStrutsLayout { edges: a.edges, inner: Box::new(a.inner.copy()) },
            ),
            Layout::WithBorders(b) => Layout::WithBorders(
                WithBordersLayout { border: b.border, inner: Box::new(b.inner.copy()) },
            ),
            Layout::Collection(c) => {
                let nl = copy_layouts(&c.layouts);
                let r = Layout::Collection(LayoutCollection { layouts: nl, index: c.index });
                proof {
                    lemma_layouts_view(nl@);
                    lemma_layouts_view(c.layouts@);
                    assert forall|j: int| 0 <= j < nl@.len() implies layouts_view(nl@)[j]
                        == layouts_view(c.layouts@)[j] by {
                        assert(layout_view(nl@[j]) == layout_view(c.layouts@[j]));
                    }
                    assert(layouts_view(nl@) =~= layouts_view(c.layouts@));
                }
                r
            },
        }
    }

    /// The border width this layout prescribes, if any.
    pub fn border_width(&self) -> (r: Option<u32>)
        requires
            self@.wf(),
        ensures
            r == border_spec(self@),
        decreases *self,
    {
        match self {
            Layout::WithBorders(b) => Some(b.border),
            Layout::Mirror(m) => m.inner.border_width(),
            Layout::Gap(g) => g.inner.border_width(),
            Layout::AvoidStruts(a) => a.inner.border_width(),
            Layout::Collection(c) => {
                proof {
                    lemma_layouts_view(c.layouts@);
                }
                c.layouts[c.index].border_width()
            },
            _ => None,
        }
    }

    /// A short human-readable name of the layout algorithm in effect.
    pub fn description(&self) -> (r: &'static str)
        requires
            self@.wf(),
        decreases *self,
    {
        match self {
            Layout::Bsp(_) => "BinarySpacePartition",
            Layout::Full(_) => "Full",
            Layout::Tall(_) => "Tall",
            Layout::Mirror(_) => "Mirror",
            Layout::Gap(_) => "Gap",
            Layout::AvoidStruts(_) => "AvoidStruts",
            Layout::WithBorders(_) => "WithBorders",
            Layout::Collection(c) => {
                proof {
                    lemma_layouts_view(c.layouts@);
                }
                c.layouts[c.index].description()
            },
        }
    }

    /// Compute the placements of the windows on the screen: one placement
    /// per window, in order, as `apply_spec` describes.
    pub fn apply(&self, ws: &Vec<Window>, screen: Rectangle, struts: Struts) -> (out: Vec<
        (Window, Rectangle),
    >)
        requires
            self@.wf(),
            screen.wf(),
        ensures
            out@ == apply_spec(self@, ws@, screen, struts),
        decreases *self,
    {
        match self {
            Layout::Bsp(b) => bsp_apply(&b.tree, ws, screen),
            Layout::Full(_) => {
                let mut out: Vec<(Window, Rectangle)> = Vec::new();
                let mut i: usize = 0;
                while i < ws.len()
                    invariant
                        i <= ws@.len(),
                        out@.len() == i,
                        forall|j: int| 0 <= j < i ==> #[trigger] out@[j] == (ws@[j], screen),
                    decreases ws@.len() - i,
                {
                    out.push((ws[i], screen));
                    i += 1;
                }
                proof {
                    assert(out@ =~= apply_spec(self@, ws@, screen, struts));
                }
                out
            },
            Layout::Tall(t) => tall_exec(t.ratio, t.num_master, ws, screen),
            Layout::Mirror(m) => {
                let sub = m.inner.apply(ws, screen.mirrored(), struts.mirrored());
                let mut out: Vec<(Window, Rectangle)> = Vec::new();
                let mut i: usize = 0;
                while i < sub.len()
                    invariant
                        i <= sub@.len(),
                        out@.len() == i,
                        forall|j: int| 0 <= j < i ==> #[trigger] out@[j] == (
                            sub@[j].0,
                            sub@[j].1.mirrored_spec(),
                        ),
                    decreases sub@.len() - i,
                {
                    let (w, rect) = sub[i];
                    out.push((w, rect.mirrored()));
                    i += 1;
                }
                proof {
                    assert(out@ =~= apply_spec(self@, ws@, screen, struts));
                }
                out
            },
            Layout::Gap(g) => {
                let sub = g.inner.apply(ws, screen, struts);
                proof {
                    lemma_apply_wf(g.inner@, ws@, screen, struts);
                }
                let mut out: Vec<(Window, Rectangle)> = Vec::new();
                let mut i: usize = 0;
                while i < sub.len()
                    invariant
                        i <= sub@.len(),
                        out@.len() == i,
                        sub@ == apply_spec(g.inner@, ws@, screen, struts),
                        screen.wf(),
                        forall|j: int| 0 <= j < sub@.len() ==> (#[trigger] sub@[j]).1.wf(),
                        forall|j: int| 0 <= j < i ==> #[trigger] out@[j] == (
                            sub@[j].0,
                            sub@[j].1.shrunk_spec(g.gap),
                        ),
                    decreases sub@.len() - i,
                {
                    let (w, rect) = sub[i];
                    out.push((w, rect.shrunk(g.gap)));
                    i += 1;
                }
                proof {
                    assert(out@ =~= apply_spec(self@, ws@, screen, struts));
                }
                out
            },
            Layout::AvoidStruts(a) => {
                let reduced = screen.avoided(a.edges, struts);
                a.inner.apply(ws, reduced, struts)
            },
            Layout::WithBorders(b) => b.inner.apply(ws, screen, struts),
            Layout::Collection(c) => {
                proof {
                    lemma_layouts_view(c.layouts@);
                }
                c.layouts[c.index].apply(ws, screen, struts)
            },
        }
    }
}

impl Layout {
    /// React to a runtime message: `None` when this layout ignores it,
    /// else the replacement layout, as `handle_spec` describes.
    pub fn handle_message(&self, msg: LayoutMessage, stack: &Option<Stack>) -> (r: Option<
        Layout,
    >)
        requires
            self@.wf(),
        ensures
            opt_layout_view(r) == handle_spec(self@, msg, opt_stack_view(*stack)),
            match r {
                Some(l2) => l2@.wf(),
                None => true,
            },
        decreases *self,
    {
        match self {
            Layout::Bsp(b) => self.handle_bsp(&b.tree, msg, stack),
            Layout::Full(_) => None,
            Layout::Tall(t) => match msg {
                LayoutMessage::Increase => {
                    let nr = if (t.ratio as u64) + (t.increment_ratio as u64) > 100 {
                        100u32
                    } else {
                        t.ratio + t.increment_ratio
                    };
                    Some(
                        Layout::Tall(
                            TallLayout {
                                increment_ratio: t.increment_ratio,
                                num_master: t.num_master,
                                ratio: nr,
                            },
                        ),
                    )
                },
                LayoutMessage::Decrease => {
                    let nr = if t.ratio < t.increment_ratio {
                        0u32
                    } else {
                        t.ratio - t.increment_ratio
                    };
                    Some(
                        Layout::Tall(
                            TallLayout {
                                increment_ratio: t.increment_ratio,
                                num_master: t.num_master,
                                ratio: nr,
                            },
                        ),
                    )
                },
                LayoutMessage::IncreaseMaster => {
                    let nm = if t.num_master < usize::MAX {
                        t.num_master + 1
                    } else {
                        t.num_master
                    };
                    Some(
                        Layout::Tall(
                            TallLayout {
                                increment_ratio: t.increment_ratio,
                                num_master: nm,
                                ratio: t.ratio,
                            },
                        ),
                    )
                },
                LayoutMessage::DecreaseMaster => {
                    let nm = if t.num_master > 1 {
                        t.num_master - 1
                    } else {
                        1
                    };
                    Some(
                        Layout::Tall(
                            TallLayout {
                                increment_ratio: t.increment_ratio,
                                num_master: nm,
                                ratio: t.ratio,
                            },
                        ),
                    )
                },
                _ => None,
            },
            Layout::Mirror(m) => match m.inner.handle_message(msg.mirrored(), stack) {
                Some(l2) => Some(Layout::Mirror(MirrorLayout { inner: Box::new(l2) })),
                None => None,
            },
            Layout::Gap(g) => match msg {
                LayoutMessage::IncreaseGap => {
                    let ng = if (g.gap as u64) + (GAP_STEP as u64) > (u32::MAX as u64) {
                        u32::MAX
                    } else {
                        g.gap + GAP_STEP
                    };
                    Some(Layout::Gap(GapLayout { gap: ng, inner: Box::new(g.inner.copy()) }))
                },
                LayoutMessage::DecreaseGap => {
                    let ng = if g.gap < GAP_STEP {
                        0u32
                    } else {
                        g.gap - GAP_STEP
                    };
                    Some(Layout::Gap(GapLayout { gap: ng, inner: Box::new(g.inner.copy()) }))
                },
                _ => match g.inner.handle_message(msg, stack) {
                    Some(l2) => Some(Layout::Gap(GapLayout { gap: g.gap, inner: Box::new(l2) })),
                    None => None,
                },
            },
            Layout::AvoidStruts(a) => match a.inner.handle_message(msg, stack) {
                Some(l2) => Some(
                    Layout::AvoidStruts(AvoidStrutsLayout { edges: a.edges, inner: Box::new(l2) }),
                ),
                None => None,
            },
            Layout::WithBorders(b) => match b.inner.handle_message(msg, stack) {
                Some(l2) => Some(
                    Layout::WithBorders(
                        WithBordersLayout { border: b.border, inner: Box::new(l2) },
                    ),
                ),
                None => None,
            },
            Layout::Collection(c) => {
                proof {
                    lemma_layouts_view(c.layouts@);
                    assert((c.index as int) < layouts_view(c.layouts@).len());
                    assert(c.index < c.layouts@.len());
                    vstd::std_specs::vec::axiom_spec_len(&c.layouts);
                    assert(c.layouts@.len() <= usize::MAX);
                }
                match msg {
                    LayoutMessage::Next => {
                        let ni = if c.index + 1 < c.layouts.len() {
                            c.index + 1
                        } else {
                            0
                        };
                        Some(self.rebuilt_collection_at(c, ni))
                    },
                    LayoutMessage::Prev => {
                        let ni = if c.index == 0 {
                            c.layouts.len() - 1
                        } else {
                            c.index - 1
                        };
                        Some(self.rebuilt_collection_at(c, ni))
                    },
                    _ => match c.layouts[c.index].handle_message(msg, stack) {
                        Some(l2) => {
                            let mut nv: Vec<Layout> = Vec::new();
                            let mut j: usize = 0;
                            while j < c.index
                                invariant
                                    j <= c.index < c.layouts@.len(),
                                    nv@.len() == j,
                                    forall|k: int| 0 <= k < j ==> layout_view(#[trigger] nv@[k])
                                        == layout_view(c.layouts@[k]),
                                decreases c.index - j,
                            {
                                nv.push(c.layouts[j].copy());
                                j += 1;
                            }
                            nv.push(l2);
                            let mut j: usize = c.index + 1;
                            while j < c.layouts.len()
                                invariant
                                    c.index < j <= c.layouts@.len(),
                                    nv@.len() == j,
                                    layout_view(nv@[c.index as int]) == handle_spec(
                                        layout_view(c.layouts@[c.index as int]),
                                        msg,
                                        opt_stack_view(*stack),
                                    )->Some_0,
                                    layout_view(nv@[c.index as int]).wf(),
                                    forall|k: int| 0 <= k < j && k != c.index ==> layout_view(
                                        #[trigger] nv@[k],
                                    ) == layout_view(c.layouts@[k]),
                                decreases c.layouts@.len() - j,
                            {
                                nv.push(c.layouts[j].copy());
                                j += 1;
                            }
                            let r = Layout::Collection(
                                LayoutCollection { layouts: nv, index: c.index },
                            );
                            proof {
                                lemma_layouts_view(nv@);
                                let lv = layouts_view(c.layouts@);
                                let target = lv.update(
                                    c.index as int,
                                    handle_spec(
                                        lv[c.index as int],
                                        msg,
                                        opt_stack_view(*stack),
                                    )->Some_0,
                                );
                                assert forall|k: int| 0 <= k < nv@.len() implies layouts_view(
                                    nv@,
                                )[k] == target[k] by {
                                    assert(layouts_view(nv@)[k] == layout_view(nv@[k]));
                                }
                                assert(layouts_view(nv@) =~= target);
                            }
                            Some(r)
                        },
                        None => None,
                    },
                }
            },
        }
    }

    /// The collection with an independent copy of every layout and the
    /// current index replaced.
    fn rebuilt_collection_at(&self, c: &LayoutCollection, ni: usize) -> (r: Layout)
        requires
            self@.wf(),
            *self matches Layout::Collection(c2) && c2 == c,
            ni < c.layouts@.len(),
        ensures
            r@ == (LayoutView::Collection {
                layouts: layouts_view(c.layouts@),
                index: ni as int,
            }),
            r@.wf(),
    {
        proof {
            lemma_layouts_view(c.layouts@);
        }
        let nl = copy_layouts(&c.layouts);
        let r = Layout::Collection(LayoutCollection { layouts: nl, index: ni });
        proof {
            lemma_layouts_view(nl@);
            assert forall|j: int| 0 <= j < nl@.len() implies layouts_view(nl@)[j] == layouts_view(
                c.layouts@,
            )[j] by {
                assert(layout_view(nl@[j]) == layout_view(c.layouts@[j]));
            }
            assert(layouts_view(nl@) =~= layouts_view(c.layouts@));
        }
        r
    }

    /// Handle a message addressed to the binary space partitioning layout.
    fn handle_bsp(&self, tree: &BspTree, msg: LayoutMessage, stack: &Option<Stack>) -> (r: Option<
        Layout,
    >)
        requires
            self@.wf(),
            *self matches Layout::Bsp(b) && b.tree == *tree,
        ensures
            opt_layout_view(r) == handle_spec(self@, msg, opt_stack_view(*stack)),
            match r {
                Some(l2) => l2@.wf(),
                None => true,
            },
    {
        match msg {
            LayoutMessage::Increase => {
                proof {
                    lemma_root_adjusted_props(*tree, true);
                }
                Some(
                    Layout::Bsp(BinarySpacePartition { tree: root_adjusted_exec(tree, true) }),
                )
            },
            LayoutMessage::Decrease => {
                proof {
                    lemma_root_adjusted_props(*tree, false);
                }
                Some(
                    Layout::Bsp(BinarySpacePartition { tree: root_adjusted_exec(tree, false) }),
                )
            },
            LayoutMessage::TreeRotate => match stack {
                Some(s) => {
                    let order = s.integrate();
                    let t = synced_tree(tree, order.len());
                    proof {
                        lemma_build_props(s@.len(), true);
                        lemma_rotated_props(sync_spec(*tree, s@.len()), s@.idx());
                    }
                    Some(Layout::Bsp(BinarySpacePartition { tree: rotated_exec(&t, s.up.len()) }))
                },
                None => None,
            },
            LayoutMessage::TreeSwap => match stack {
                Some(s) => {
                    let order = s.integrate();
                    let t = synced_tree(tree, order.len());
                    proof {
                        lemma_build_props(s@.len(), true);
                        lemma_swapped_props(sync_spec(*tree, s@.len()), s@.idx());
                    }
                    Some(Layout::Bsp(BinarySpacePartition { tree: swapped_exec(&t, s.up.len()) }))
                },
                None => None,
            },
            LayoutMessage::TreeExpandTowards(d) => match stack {
                Some(s) => {
                    let order = s.integrate();
                    let t = synced_tree(tree, order.len());
                    proof {
                        lemma_build_props(s@.len(), true);
                        lemma_adjusted_props(
                            sync_spec(*tree, s@.len()),
                            s@.idx(),
                            d.is_horizontal_spec(),
                            true,
                        );
                    }
                    Some(
                        Layout::Bsp(
                            BinarySpacePartition {
                                tree: adjusted_exec(&t, s.up.len(), d.is_horizontal(), true),
                            },
                        ),
                    )
                },
                None => None,
            },
            LayoutMessage::TreeShrinkFrom(d) => match stack {
                Some(s) => {
                    let order = s.integrate();
                    let t = synced_tree(tree, order.len());
                    proof {
                        lemma_build_props(s@.len(), true);
                        lemma_adjusted_props(
                            sync_spec(*tree, s@.len()),
                            s@.idx(),
                            d.is_horizontal_spec(),
                            false,
                        );
                    }
                    Some(
                        Layout::Bsp(
                            BinarySpacePartition {
                                tree: adjusted_exec(&t, s.up.len(), d.is_horizontal(), false),
                            },
                        ),
                    )
                },
                None => None,
            },
            _ => None,
        }
    }
}

impl BinarySpacePartition {
    /// A fresh binary space partitioning layout.
    pub fn new() -> (r: Layout)
        ensures
            r@ == LayoutView::Bsp(BspTree::Leaf),
            r@.wf(),
    {
        Layout::Bsp(BinarySpacePartition { tree: BspTree::Leaf })
    }
}

impl FullLayout {
    /// The layout that places every window at the full screen rectangle.
    pub fn new() -> (r: Layout)
        ensures
            r@ == LayoutView::Full,
            r@.wf(),
    {
        Layout::Full(FullLayout)
    }
}

impl MirrorLayout {
    /// Wrap `inner` with its axes exchanged.
    pub fn new(inner: Layout) -> (r: Layout)
        ensures
            r@ == LayoutView::Mirror(Box::new(inner@)),
    {
        Layout::Mirror(MirrorLayout { inner: Box::new(inner) })
    }
}

impl GapLayout {
    /// Wrap `inner` with a margin of `gap` pixels around each placement.
    pub fn new(gap: u32, inner: Layout) -> (r: Layout)
        ensures
            r@ == (LayoutView::Gap { gap, inner: Box::new(inner@) }),
    {
        Layout::Gap(GapLayout { gap, inner: Box::new(inner) })
    }
}

impl AvoidStrutsLayout {
    /// Wrap `inner`, avoiding reported struts at the listed edges.
    pub fn new(directions: Vec<Direction>, inner: Layout) -> (r: Layout)
        ensures
            r@ == (LayoutView::AvoidStruts {
                edges: EdgeSet {
                    top: directions@.contains(Direction::Up),
                    bottom: directions@.contains(Direction::Down),
                    left: directions@.contains(Direction::Left),
                    right: directions@.contains(Direction::Right),
                },
                inner: Box::new(inner@),
            }),
    {
        let edges = EdgeSet::from_directions(&directions);
        Layout::AvoidStruts(AvoidStrutsLayout { edges, inner: Box::new(inner) })
    }
}

impl WithBordersLayout {
    /// Wrap `layout`, asking for a border of `border` pixels around each
    /// placed window.
    pub fn new(border: u32, layout: Box<Layout>) -> (r: Box<Layout>)
        ensures
            r@ == (LayoutView::WithBorders { border, inner: Box::new(layout@) }),
    {
        Box::new(Layout::WithBorders(WithBordersLayout { border, inner: layout }))
    }
}

impl NoBordersLayout {
    /// Wrap `layout` with borders suppressed: a border width of zero.
    pub fn new(layout: Box<Layout>) -> (r: Box<Layout>)
        ensures
            r@ == (LayoutView::WithBorders { border: 0, inner: Box::new(layout@) }),
    {
        WithBordersLayout::new(0, layout)
    }
}

impl LayoutCollection {
    /// A cycling collection over `layouts`, starting at the first.
    pub fn new(layouts: Vec<Layout>) -> (r: Layout)
        requires
            layouts@.len() > 0,
        ensures
            r@ == (LayoutView::Collection { layouts: layouts_view(layouts@), index: 0 }),
    {
        Layout::Collection(LayoutCollection { layouts, index: 0 })
    }
}

/// The border width a layout asks the window-system collaborator to draw,
/// if it prescribes one.
pub open spec fn border_spec(l: LayoutView) -> Option<u32>
    decreases l,
{
    match l {
        LayoutView::WithBorders { border, .. } => Some(border),
        LayoutView::Mirror(inner) => border_spec(*inner),
        LayoutView::Gap { inner, .. } => border_spec(*inner),
        LayoutView::AvoidStruts { inner, .. } => border_spec(*inner),
        LayoutView::Collection { layouts, index } => if 0 <= index < layouts.len() {
            border_spec(layouts[index])
        } else {
            None
        },
        _ => None,
    }
}

} // verus!
