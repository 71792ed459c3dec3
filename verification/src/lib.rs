//! Tree-Buf: a compact, self-describing binary format for tree-shaped data.
#![allow(unused_imports)]

pub mod branch;
pub mod buffer;
pub mod encoder_decoder;
pub mod encodings;
pub mod error;
pub mod naming;
pub mod options;
pub mod parallel;
pub mod primitive;
pub mod reader_writer;
pub mod scratch;
pub mod smart_pointers;
pub mod stats;
pub mod type_id;
