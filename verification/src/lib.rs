//! Core of a paginated document reader: sessions assembled from several
//! document sources, a bounded sliding window of decoded pages kept around
//! the reading position, and lazily managed decoder handles.

pub mod builder;
pub mod config;
pub mod decode;
pub mod order;
pub mod sequencer;
pub mod server;
pub mod source;
pub mod window;
