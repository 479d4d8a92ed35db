//! The core of the server of a two-dimensional block world.
//!
//! The world is a grid of blocks kept in chunks; players fall, walk and jump
//! in it, place and break blocks, and see each other through the chunks their
//! clients hold. Water spreads tick by tick. Everything here is a function
//! from state and request to state and messages: the sockets, the clocks and
//! the console live outside and hand in plain values.
//!
//! Lengths, speeds and health are fixed-point numbers (see [`scalar`]).

pub mod scalar;
pub mod constants;
pub mod grid;
pub mod lists;
pub mod random;
pub mod sorting;
pub mod block;
pub mod item;
pub mod inventory;
pub mod player;
pub mod connection;
pub mod chunk;
pub mod network;
pub mod world;
pub mod interest;
pub mod fluid;
pub mod terrain;
pub mod movement;
pub mod tick;
pub mod collision;
pub mod falling;
pub mod session;
pub mod dispatch;
pub mod console;
pub mod commands;
pub mod stats;
