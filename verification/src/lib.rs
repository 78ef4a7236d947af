//! Muharrir: shared editor primitives with verified contracts.
//!
//! Undo/redo command stacks, dirty tracking, selections and panel states,
//! toasts and a notification log, a recent-files list, a property sheet,
//! scene hierarchies, hardware quality tiers, an audit-chained action
//! history, and the choice of a preferences directory.

pub mod command;
pub mod dirty;
pub mod error;
pub mod hierarchy;
pub mod history;
pub mod hw;
pub mod inspector;
pub mod notification;
pub mod prefs;
pub mod recent;
pub mod selection;
pub mod text;

pub use command::{Command, CommandHistory, CompoundCommand};
pub use dirty::DirtyState;
pub use error::{Error, Result};
pub use hierarchy::{build_hierarchy, flatten, FlatEntry, HierarchyNode, NodeId};
pub use history::{Action, History};
pub use hw::{HardwareProfile, QualityTier};
pub use inspector::{Property, PropertySheet};
pub use notification::{Notification, NotificationLog, Severity, Toast, Toasts};
pub use recent::RecentFiles;
pub use selection::{PanelStates, Selection};
