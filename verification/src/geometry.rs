//! Screen rectangles, directions, and the geometric transformations the
//! layouts share: proportional splitting, gap insertion, strut avoidance
//! and axis mirroring.

use vstd::prelude::*;

verus! {

/// A spatial direction, used for navigation, strut edges and tree edits.
#[derive(Clone, Copy, Debug, PartialEq, Eq, Structural)]
pub enum Direction {
    Up,
    Down,
    Left,
    Right,
}

impl Direction {
    /// The direction with the two screen axes exchanged, as the mirror
    /// decorator sees it.
    pub open spec fn mirrored_spec(self) -> Direction {
        match self {
            Direction::Up => Direction::Left,
            Direction::Down => Direction::Right,
            Direction::Left => Direction::Up,
            Direction::Right => Direction::Down,
        }
    }

    /// Exchange the two screen axes.
    pub fn mirrored(self) -> (r: Direction)
        ensures
            r == self.mirrored_spec(),
    {
        match self {
            Direction::Up => Direction::Left,
            Direction::Down => Direction::Right,
            Direction::Left => Direction::Up,
            Direction::Right => Direction::Down,
        }
    }

    /// Whether the direction runs along the horizontal axis.
    pub open spec fn is_horizontal_spec(self) -> bool {
        self == Direction::Left || self == Direction::Right
    }

    /// Whether the direction runs along the horizontal axis.
    pub fn is_horizontal(self) -> (r: bool)
        ensures
            r == self.is_horizontal_spec(),
    {
        match self {
            Direction::Left => true,
            Direction::Right => true,
            _ => false,
        }
    }
}

/// A screen-pixel rectangle.
#[derive(Clone, Copy, Debug, PartialEq, Eq, Structural)]
pub struct Rectangle {
    pub x: u32,
    pub y: u32,
    pub width: u32,
    pub height: u32,
}

/// Pixels reserved at each screen edge by panels and task bars, reported
/// by the display-server collaborator.
#[derive(Clone, Copy, Debug, PartialEq, Eq, Structural)]
pub struct Struts {
    pub top: u32,
    pub bottom: u32,
    pub left: u32,
    pub right: u32,
}

impl Struts {
    /// No reserved space at any edge.
    pub fn none() -> (r: Struts)
        ensures
            r == (Struts { top: 0, bottom: 0, left: 0, right: 0 }),
    {
        Struts { top: 0, bottom: 0, left: 0, right: 0 }
    }

    /// The struts as the mirror decorator's inner layout sees them.
    pub open spec fn mirrored_spec(self) -> Struts {
        Struts { top: self.left, bottom: self.right, left: self.top, right: self.bottom }
    }

    /// Exchange the two screen axes.
    pub fn mirrored(self) -> (r: Struts)
        ensures
            r == self.mirrored_spec(),
    {
        Struts { top: self.left, bottom: self.right, left: self.top, right: self.bottom }
    }
}

impl Rectangle {
    /// The far edges stay within the coordinate range.
    pub open spec fn wf(self) -> bool {
        self.x + self.width <= u32::MAX && self.y + self.height <= u32::MAX
    }

    /// Whether the point `(px, py)` lies inside the rectangle.
    pub open spec fn has_point(self, px: int, py: int) -> bool {
        self.x <= px < self.x + self.width && self.y <= py < self.y + self.height
    }

    /// No point lies in both rectangles.
    pub open spec fn disjoint(self, other: Rectangle) -> bool {
        forall|px: int, py: int|
            !(#[trigger] self.has_point(px, py) && #[trigger] other.has_point(px, py))
    }

    /// The rectangle with the two screen axes exchanged.
    pub open spec fn mirrored_spec(self) -> Rectangle {
        Rectangle { x: self.y, y: self.x, width: self.height, height: self.width }
    }

    /// Exchange the two screen axes.
    pub fn mirrored(self) -> (r: Rectangle)
        ensures
            r == self.mirrored_spec(),
            self.wf() ==> r.wf(),
    {
        Rectangle { x: self.y, y: self.x, width: self.height, height: self.width }
    }

    /// The rectangle shrunk by a margin of `gap` pixels on every side and
    /// recentred within itself; an axis too small for two margins collapses
    /// to zero extent at its midpoint.
    pub open spec fn shrunk_spec(self, gap: u32) -> Rectangle {
        let (x, width) = if 2 * gap <= self.width {
            ((self.x + gap) as u32, (self.width - 2 * gap) as u32)
        } else {
            ((self.x + self.width / 2) as u32, 0u32)
        };
        let (y, height) = if 2 * gap <= self.height {
            ((self.y + gap) as u32, (self.height - 2 * gap) as u32)
        } else {
            ((self.y + self.height / 2) as u32, 0u32)
        };
        Rectangle { x, y, width, height }
    }

    /// Shrink by a margin of `gap` pixels on every side, recentring.
    pub fn shrunk(self, gap: u32) -> (r: Rectangle)
        requires
            self.wf(),
        ensures
            r == self.shrunk_spec(gap),
            r.wf(),
    {
        let (x, width) = if 2 * (gap as u64) <= self.width as u64 {
            (self.x + gap, self.width - 2 * gap)
        } else {
            (self.x + self.width / 2, 0u32)
        };
        let (y, height) = if 2 * (gap as u64) <= self.height as u64 {
            (self.y + gap, self.height - 2 * gap)
        } else {
            (self.y + self.height / 2, 0u32)
        };
        Rectangle { x, y, width, height }
    }

    /// The rectangle with the reserved edges removed.  Each configured edge
    /// loses at most the remaining extent of its axis.
    pub open spec fn avoided_spec(self, edges: EdgeSet, struts: Struts) -> Rectangle {
        let t = if edges.top { min_u32(struts.top, self.height) } else { 0 };
        let b = if edges.bottom {
            min_u32(struts.bottom, (self.height - t) as u32)
        } else {
            0
        };
        let l = if edges.left { min_u32(struts.left, self.width) } else { 0 };
        let r = if edges.right { min_u32(struts.right, (self.width - l) as u32) } else { 0 };
        Rectangle {
            x: (self.x + l) as u32,
            y: (self.y + t) as u32,
            width: (self.width - l - r) as u32,
            height: (self.height - t - b) as u32,
        }
    }

    /// Remove the reserved edges.
    pub fn avoided(self, edges: EdgeSet, struts: Struts) -> (r: Rectangle)
        requires
            self.wf(),
        ensures
            r == self.avoided_spec(edges, struts),
            r.wf(),
    {
        let t = if edges.top { min_exec(struts.top, self.height) } else { 0 };
        let b = if edges.bottom { min_exec(struts.bottom, self.height - t) } else { 0 };
        let l = if edges.left { min_exec(struts.left, self.width) } else { 0 };
        let r = if edges.right { min_exec(struts.right, self.width - l) } else { 0 };
        Rectangle {
            x: self.x + l,
            y: self.y + t,
            width: self.width - l - r,
            height: self.height - t - b,
        }
    }
}

/// The screen edges an `AvoidStruts` decorator is configured to respect.
#[derive(Clone, Copy, Debug, PartialEq, Eq, Structural)]
pub struct EdgeSet {
    pub top: bool,
    pub bottom: bool,
    pub left: bool,
    pub right: bool,
}

impl EdgeSet {
    /// The edge set containing exactly the listed directions.
    pub fn from_directions(dirs: &Vec<Direction>) -> (r: EdgeSet)
        ensures
            r.top == dirs@.contains(Direction::Up),
            r.bottom == dirs@.contains(Direction::Down),
            r.left == dirs@.contains(Direction::Left),
            r.right == dirs@.contains(Direction::Right),
    {
        let mut r = EdgeSet { top: false, bottom: false, left: false, right: false };
        let mut i: usize = 0;
        while i < dirs.len()
            invariant
                i <= dirs@.len(),
                r.top == (exists|j: int| 0 <= j < i && dirs@[j] == Direction::Up),
                r.bottom == (exists|j: int| 0 <= j < i && dirs@[j] == Direction::Down),
                r.left == (exists|j: int| 0 <= j < i && dirs@[j] == Direction::Left),
                r.right == (exists|j: int| 0 <= j < i && dirs@[j] == Direction::Right),
            decreases dirs@.len() - i,
        {
            match dirs[i] {
                Direction::Up => { r.top = true; },
                Direction::Down => { r.bottom = true; },
                Direction::Left => { r.left = true; },
                Direction::Right => { r.right = true; },
            }
            i += 1;
        }
        r
    }
}

/// The smaller of two values.
pub open spec fn min_u32(a: u32, b: u32) -> u32 {
    if a <= b {
        a
    } else {
        b
    }
}

/// The smaller of two values.
pub fn min_exec(a: u32, b: u32) -> (r: u32)
    ensures
        r == min_u32(a, b),
{
    if a <= b {
        a
    } else {
        b
    }
}

} // verus!
