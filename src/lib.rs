//! Dictionary-based password recovery: a common interface over fixed digests,
//! scrypt and bcrypt, a codec for self-describing scrypt hashes, and a scan
//! that finds the first candidate reproducing a target.
pub mod text;
pub mod digest;
pub mod scrypt;
pub mod bcrypt;
pub mod matcher;
