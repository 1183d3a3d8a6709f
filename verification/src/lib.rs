//! A Modbus TCP slave that holds a bank of holding registers ("D" words) and
//! coils ("M" bits) for a PLC, together with the integer rules that the
//! shoe-insole vision pipeline reports to that PLC.
//!
//! Everything here is plain computation on bytes and integers; sockets,
//! threads and image processing live in the application around it.
pub mod bytes;
pub mod frames;
pub mod state;
pub mod server;
pub mod vision_rules;
