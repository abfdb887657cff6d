//! Firmware logic for the pixel game on the evaluation board: the receive
//! buffer, the trail of visited points, the message envelope, the game state
//! and the drawing arithmetic, all of it free of hardware access.

pub mod drawing;
pub mod font;
pub mod frame;
pub mod game;
pub mod message;
pub mod ring_buffer;
pub mod screen;
pub mod trail;
