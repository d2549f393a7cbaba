//! A streaming prompt/response engine for a newline-delimited JSON text service:
//! it frames the request for each prompt, reassembles the chunked answer into
//! lines, decodes the text each line carries, and runs the turns of a session
//! strictly one after another.
pub mod decoder;
pub mod reassembler;
pub mod request;
pub mod session;
pub mod turn;
