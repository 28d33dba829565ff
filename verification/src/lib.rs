//! Containers with a double-ended queue built from fixed-size subarrays at their heart.
//!
//! Storage is typed and owned: every container keeps its elements in blocks that it takes
//! from an [`Allocator`] and gives back to it, and every operation is proved against a
//! mathematical view of the container.

pub mod allocator;
pub mod compare;
pub mod deque;
pub mod equals;
pub mod fixed_pool;
pub mod fixed_vector;
pub mod hash;
pub mod hash_map;
pub mod hash_set;
pub mod internal;
pub mod list;
pub mod map;
pub mod queue;
pub mod set;
pub mod string;
pub mod vector;
pub mod vector_map;

pub use allocator::{Allocator, DefaultAllocator};
pub use compare::{Compare, Greater, Less};
pub use equals::{EqualTo, Equals};

pub use deque::{DefaultDeque, Deque};
pub use queue::{DefaultQueue, Queue};
pub use vector::{DefaultVector, Vector};
pub use vector_map::{DefaultVectorMap, VectorMap};
pub use list::{DefaultList, List};
pub use map::TreeMap;
pub use set::TreeSet;
pub use hash_map::HashMap;
pub use hash_set::HashSet;
