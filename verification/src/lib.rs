//! A tile-grid spatial index: a dense, bit-packed occupancy grid and the
//! four-directional graph that path searches walk over it.

pub mod bitset;
pub mod collision_map;
pub mod occupancy;
pub mod pathing;
pub mod records;

pub use crate::bitset::BitSet;
pub use crate::collision_map::CollisionMap;
pub use crate::occupancy::OccupancyGrid;
pub use crate::pathing::EDGE_COST;
pub use crate::records::AiDestination;
pub use crate::records::AiPath;
pub use crate::records::Camera;
pub use crate::records::Collision;
pub use crate::records::Comp;
pub use crate::records::Direction;
pub use crate::records::NavigationPath;
pub use crate::records::Point;
pub use crate::records::SpriteIndex;
