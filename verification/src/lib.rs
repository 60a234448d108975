//! Core of a tiling window manager: a focus-centered window zipper, tiling
//! layout algorithms with a runtime message protocol, and the per-screen
//! workspace aggregate that composes them.

pub mod bsp;
pub mod geometry;
pub mod layout;
pub mod messages;
pub mod stack;
pub mod workspace;
pub mod workspaces;

pub use bsp::BinarySpacePartition;
pub use bsp::BspTree;
pub use geometry::Direction;
pub use geometry::EdgeSet;
pub use geometry::Rectangle;
pub use geometry::Struts;
pub use layout::AvoidStrutsLayout;
pub use layout::FullLayout;
pub use layout::GapLayout;
pub use layout::Layout;
pub use layout::LayoutCollection;
pub use layout::MirrorLayout;
pub use layout::NoBordersLayout;
pub use layout::TallLayout;
pub use layout::WithBordersLayout;
pub use messages::LayoutMessage;
pub use stack::Stack;
pub use stack::StackView;
pub use stack::Window;
pub use workspace::Workspace;
pub use workspaces::Workspaces;
