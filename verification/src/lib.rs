//! Singly linked lists under three ownership disciplines.
//!
//! - [`first`] and [`second`]: a stack whose every node owns its successor;
//!   `second` adds peeking and walks by value, by shared reference and by
//!   mutable reference.
//! - [`third`]: a persistent stack, whose lists share the nodes they have in
//!   common and never change.
//! - [`fourth`]: a first-in, first-out queue with a cursor on its last node.
//!
//! Every list is modelled by the sequence of its items, front first, and
//! every operation is specified against that sequence. [`order`] holds what
//! the lists have in common there, and the laws of the two orders; [`render`]
//! writes a chain out as text.

pub mod first;
pub mod fourth;
pub mod order;
pub mod render;
pub mod second;
pub mod third;
