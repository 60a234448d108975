//! The runtime reconfiguration commands a layout may receive.

use vstd::prelude::*;
use crate::geometry::Direction;

verus! {

/// A tagged command sent to a layout at runtime.  A layout that does not
/// handle a message ignores it silently.
#[derive(Clone, Copy, Debug, PartialEq, Eq, Structural)]
pub enum LayoutMessage {
    Increase,
    Decrease,
    IncreaseSlave,
    DecreaseSlave,
    IncreaseMaster,
    DecreaseMaster,
    IncreaseGap,
    DecreaseGap,
    Next,
    Prev,
    TreeRotate,
    TreeSwap,
    TreeExpandTowards(Direction),
    TreeShrinkFrom(Direction),
    Hide,
}

impl LayoutMessage {
    /// The message as the mirror decorator's inner layout sees it:
    /// directional tree edits have their axes exchanged.
    pub open spec fn mirrored_spec(self) -> LayoutMessage {
        match self {
            LayoutMessage::TreeExpandTowards(d) => LayoutMessage::TreeExpandTowards(
                d.mirrored_spec(),
            ),
            LayoutMessage::TreeShrinkFrom(d) => LayoutMessage::TreeShrinkFrom(d.mirrored_spec()),
            _ => self,
        }
    }

    /// Exchange the axes of directional tree edits.
    pub fn mirrored(self) -> (r: LayoutMessage)
        ensures
            r == self.mirrored_spec(),
    {
        match self {
            LayoutMessage::TreeExpandTowards(d) => LayoutMessage::TreeExpandTowards(d.mirrored()),
            LayoutMessage::TreeShrinkFrom(d) => LayoutMessage::TreeShrinkFrom(d.mirrored()),
            _ => self,
        }
    }
}

} // verus!
