//! A bounds-checked, panic-free binary wire-format toolkit.
//!
//! The crate provides two layers:
//!
//! * a cursor pair — [`io::ByteReader`] over an immutable byte sequence and
//!   [`io::ByteWriter`] over a growable, append-only byte buffer — together with
//!   a fixed, protobuf-like encoding of the primitive types (big-endian by
//!   default, explicit little-endian forms, 24-bit integers, LEB128 variable
//!   length integers with a zigzag mapping for the signed forms, and
//!   length-prefixed strings, vectors and options); and
//! * a schema compiler ([`schema`]) that turns a declarative record
//!   description — a struct or enum with typed fields and per-field
//!   directives — into validated encode and decode procedures, resolved once
//!   and reproduced byte for byte at run time.
//!
//! Every encode and every decode is specified against a mathematical wire
//! model ([`wire`]), and the round-trip laws are stated and proved in the
//! modules that own them.

pub mod codec;
pub mod error;
pub mod interfaces;
pub mod io;
pub mod net;
pub mod record;
pub mod schema;
pub mod types;
pub mod wire;
