//! Decision logic of a raw-video relay that can zoom into a viewport.
//!
//! The relay forwards fixed-size RGB frames. On command it cuts a rectangle
//! out of every frame and has an external engine scale it back to the full
//! frame size. This crate holds everything the relay decides and computes;
//! the streams, sockets, threads and the engine process belong to the caller.
//!
//! - [`geometry`]: the size of a frame, the viewport and its state.
//! - [`text`] and [`number`]: the characters and numbers of a command line.
//! - [`control`]: the commands of a client and the replies to them.
//! - [`stream`]: the input as bytes, and the messages of a snapshot.
//! - [`extract`]: cutting the viewport out of a frame as it is read.
//! - [`relay`]: the mode of a frame, the plain way through, the end of the
//!   loop.
//! - [`scaler`]: when the engine is started and ended, and how an image
//!   passes through it.

pub mod control;
pub mod extract;
pub mod geometry;
pub mod number;
pub mod relay;
pub mod scaler;
pub mod stream;
pub mod text;
