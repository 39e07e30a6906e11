//! Four node-based sequence containers, each built around a different
//! ownership discipline over the same logical abstraction (an ordered
//! sequence of values):
//!
//! - [`ll::LinkedList`]: a singly-linked LIFO list with exclusively owned
//!   nodes;
//! - [`dll::DoublyLinkedList`]: a deque supporting pushes and pops at both
//!   ends, its nodes held in an index-linked arena;
//! - [`immutable_ll::ImmutableLinkedList`]: a persistent list whose versions
//!   share unmodified suffixes through reference-counted nodes;
//! - [`concurrent_ll::ConcurrentImmutableLinkedList`]: the persistent list
//!   with atomically counted sharing, so versions may cross thread
//!   boundaries.
//!
//! Every operation carries a contract over the container's view, a
//! `Seq` of the values it holds from front to back.

pub mod concurrent_ll;
pub mod dll;
pub mod immutable_ll;
pub mod ll;
