//! A small multiplayer game server core: a grid world of entities with a
//! simulation tick, a line protocol router, a bounded mailbox of inbound
//! lines, and the decisions of the server's background loops.
pub mod common;
pub mod world;
pub mod protocol;
pub mod mailbox;
pub mod lifecycle;
