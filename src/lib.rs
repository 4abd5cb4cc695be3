//! Tiling layout engine of a compositor: a binary split tree that lays
//! windows out, workspaces that own one tree each, and the set of workspaces
//! that a compositor switches between.
pub mod binarytree;
pub mod config;
pub mod geometry;
pub mod seqs;
pub mod state;
pub mod workspace;

pub use binarytree::{BinaryTree, HorizontalOrVertical};
pub use config::{Action, Config, KeyModifier, KeyModifiers, KeyModifiersDef, KeyPattern, OutputConfig};
pub use geometry::{Gaps, Rect};
pub use state::{Backend, ClientState};
pub use workspace::{Output, TiledWindow, Workspace, WorkspaceError, Workspaces};
