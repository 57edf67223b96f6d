//! Host security triage: decoding of kernel process and socket tables,
//! capability classification, socket-to-process correlation, risk scoring
//! and credential scanning, over text handed in by the caller.

pub mod text;
pub mod caps;
pub mod num;
pub mod correlate;
pub mod net;
pub mod secrets;
pub mod process;
