//! Windows: identifiers, nodes, clusters, decorations and navigation directions.
pub mod cluster;
pub mod decoration;
pub mod navigation;
pub mod node;
pub mod snapping;
