//! Zero-copy mirroring of one display output onto others: the capture state
//! machine, the output registry, destination surface geometry and the
//! viewport placement used when compositing a captured frame.

pub mod capture;
pub mod capture_lemmas;
pub mod globals;
pub mod outputs;
pub mod render;
pub mod surface;
pub mod workspace;
