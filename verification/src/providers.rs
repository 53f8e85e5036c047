//! Vendor wire models.
//!
//! Each provider speaks its own request and response schema; the modules
//! below hold those shapes as plain data, build them from the canonical
//! request, and turn replies and stream events back into the canonical
//! model. The HTTP and stream plumbing around them lives outside the
//! library.

pub mod anthropic;
pub mod gemini;
pub mod openai;
