//! Core of a remote-pairing and device-control service.
//!
//! A secondary device registers itself, is interactively approved by a human
//! operator, receives a signed credential, and then streams control events
//! over a persistent connection. This crate holds the verified heart of that
//! service: the device registry with its lifecycle invariant, the credential
//! codec, the pairing decisions, the control-frame decoder and the
//! input-injection dispatch. Transport, TLS and the OS input resource live in
//! the surrounding application.

pub mod assoc;
pub mod codec;
pub mod config;
pub mod delta;
pub mod device;
pub mod frame;
pub mod ident;
pub mod input;
pub mod ip;
pub mod pairing;
pub mod registry;
pub mod strutil;
pub mod window;
