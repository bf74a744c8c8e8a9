//! Rectangles, sizing constraints and the bookkeeping around splitting an area into
//! a row or column of smaller areas.
pub mod constraint;
pub mod layout;
pub mod rect;
pub mod split;

pub use crate::constraint::Constraint;
pub use crate::layout::Alignment;
pub use crate::layout::Corner;
pub use crate::layout::Direction;
pub use crate::layout::Layout;
pub use crate::rect::Margin;
pub use crate::rect::Rect;
pub use crate::split::Anchor;
pub use crate::split::Relation;
pub use crate::split::Requirement;
pub use crate::split::SplitPlan;
pub use crate::split::Strength;
pub use crate::split::Term;
