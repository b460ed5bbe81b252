//! Point-cloud registration support and occupancy mapping over integer grids:
//! a k-d tree for nearest-neighbour search, grid line drawing, a log-odds
//! occupancy grid, and the configuration and control rules of iterative
//! closest point registration.

pub mod bresenham;
pub mod grid_map;
pub mod hector_mapper;
pub mod icp;
pub mod is_nan;
pub mod kd_tree;
pub mod nearest_neighbour;
pub mod point;
