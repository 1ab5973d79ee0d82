//! The items most users need.
pub use crate::asset_loaders::NavMeshPolyanyaLoader;
pub use crate::flags::{FillMode, TrimeshFlags};
pub use crate::updater::{ManagedNavMesh, NavMeshStatus, UpdateModeKind};
pub use crate::VleueNavigatorPlugin;
