//! The core of a single-view modal text editor: document model, soft wrap,
//! selections, undo grouping, modal key handling and update building.
pub mod delta;
pub mod dispatch;
pub mod edit_ops;
pub mod events;
pub mod highlight;
pub mod input;
pub mod lines;
pub mod mac;
pub mod playground;
pub mod selection;
pub mod strs;
pub mod text;
pub mod undo;
pub mod update;
pub mod view;
pub mod vim;
