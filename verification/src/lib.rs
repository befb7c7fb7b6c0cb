//! The logic of an application frame's widgets: notification queues, the
//! date picker's panel, tree drag-and-drop, colour codes and the small value
//! types that the widgets share, each with its contract.

pub mod icon;
pub mod severity;
pub mod toast;
pub mod tip;
pub mod table;
pub mod dropdown;
pub mod compare;
pub mod rulers;
pub mod radial;
pub mod number;
pub mod date;
pub mod date_picker;
pub mod tree_view;
pub mod text;
pub mod color;
pub mod chips;
pub mod inspector;
pub mod timeline;
