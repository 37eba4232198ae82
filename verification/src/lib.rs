//! Host-side library for the Picture Transfer Protocol (PTP) over a USB
//! bulk endpoint pair: little-endian container framing, the typed PTP
//! value system, descriptor parsers, and the transaction engine.
#![allow(non_snake_case)]
#![allow(non_upper_case_globals)]

pub mod error;
pub mod StandardResponseCode;
pub mod StandardCommandCode;
pub mod codec;
pub mod container;
pub mod datatype;
pub mod transport;
pub mod scripted;
pub mod engine;
pub mod descriptors;
pub mod properties;
pub mod tree;
