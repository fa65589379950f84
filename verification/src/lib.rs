//! Converts newline-delimited JSON records of negotiated billing rates into
//! CSV rows. Each record carries a billing code, a name, and nested groups of
//! negotiated prices; a record survives when it has at least one price and the
//! mean of its prices stays at or under a fixed threshold, and each survivor
//! becomes one `name,billing_code,avg_rate` row.
//!
//! This crate holds the verified part: decoding a line into a record,
//! collecting the record's prices in order, and rendering CSV rows. The
//! floating-point mean itself, the threshold test on it, and all reading and
//! writing of streams stay outside, in the surrounding binary.
pub mod emit;
pub mod json;
pub mod record;
