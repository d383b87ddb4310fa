//! Spaced-repetition scheduling of study sessions: which topics are due on a
//! given day, which of them still need a session created, and the storage
//! writes that create and complete sessions. `model` states what those
//! writes do to the record store and proves the laws that follow.

pub mod domain;
pub mod err;
pub mod schedule;
pub mod sessions;
pub mod model;
