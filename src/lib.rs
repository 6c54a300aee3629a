//! Text preview of byte streams: a content sniffer that gates binary data, and
//! a streaming decoder that hands out text in chunks without ever splitting a
//! multi-byte UTF-8 character across two chunks.
pub mod boundary;
pub mod sniff;
pub mod render;
pub mod size;
pub mod dispatch;
pub mod display;
