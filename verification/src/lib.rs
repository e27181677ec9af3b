//! Framing, validation and decoding of NMEA-0183 sentences arriving as an
//! unbounded, arbitrarily fragmented byte stream.
//!
//! The pipeline is `framer::Framer` -> `validator::validate` ->
//! `decoder::decode`; `driver::step` wires the three together for one fetched
//! chunk at a time. Nothing here performs I/O or keeps state other than the
//! sentence in progress, which never outgrows `framer::MAX_SENTENCE_LEN`.
//!
//! `framing` says which stretches of a stream are sentences and proves that
//! the framer finds exactly those, however the stream is cut into chunks.

pub mod framer;
pub mod framing;
pub mod validator;
pub mod fields;
pub mod numbers;
pub mod record;
pub mod decoder;
pub mod driver;
