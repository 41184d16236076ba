//! Verified core of a G-code toolpath viewer: machine and view modes,
//! block interpretation, toolpath assembly with layer grouping, and
//! playback stepping.
pub mod block;
pub mod modes;
pub mod numbers;
pub mod playback;
pub mod program;
pub mod toolpath;
pub mod vertices;
