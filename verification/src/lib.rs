//! A text-report rendering engine: a weighted-column table layout allocator,
//! width-aware text padding primitives, and a compact base-36 identifier codec.

pub mod codec;
pub mod draw;
pub mod remote;
pub mod setting;
pub mod textwidth;
pub mod timefmt;
pub mod todo;
pub mod window;
