//! A resilient line-stream supervisor.
//!
//! The library turns the byte output of an externally managed command into a
//! single sequence of decoded text lines and decides, step by step, whether a
//! line is delivered, the command is relaunched, or the sequence ends.  The
//! modules build on each other:
//!
//! * [`decode`] — lossy text decoding: bytes become characters, with a
//!   replacement character standing in for malformed input.
//! * [`lines`] — the line decoder: buffered bytes from one readable source
//!   become delimiter-free lines.
//! * [`merge`] — two decoded line streams merged into one, each stream's own
//!   order preserved.
//! * [`runner`] — the supervisor: a head budget, a restart flag and the
//!   terminal states of one supervised command.
//!
//! All reading, spawning and waiting is left to the caller, who feeds the
//! outcome of each read back in as plain values.

pub mod decode;
pub mod lines;
pub mod merge;
pub mod runner;
