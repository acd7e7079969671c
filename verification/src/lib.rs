//! Bit-packed wire protocol and radio transport helpers for a network of
//! small sensor/actuator nodes reporting to a central receiver.
//!
//! The crate is organised bottom-up:
//! - [`bity`] is the bit-level codec primitive: MSB-first bit packing into a
//!   byte buffer with overflow/underflow detection.
//! - [`node`] is the message model (commands, responses, sensor and actuator
//!   state) with its bit-level encoding and decoding.
//! - [`wire`] is the mathematical model of the wire format: specification
//!   encoders and parsers over bit sequences, and the round-trip proofs.
//! - [`radio`] frames encoded messages into fixed 32-byte payloads with a
//!   pipe/length/address header, and declares the capability trait a radio
//!   transceiver must offer.
//! - [`helper`] drives a radio with bounded polling loops to send and receive
//!   whole messages.
//! - [`discriminant`] assigns every error a compact numeric id without
//!   collisions across layers.

pub mod bity;

pub mod discriminant;

pub mod helper;

pub mod node;

pub mod radio;

pub mod wire;
