//! Small keyed containers with an explicit mathematical model.

pub mod map_sum;
pub mod vec_map;
pub mod vec_set;
