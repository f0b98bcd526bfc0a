//! A passphrase-protected vault for asymmetric key records.
//!
//! Key records are serialized to a structured text payload, sealed under a
//! key derived from a passphrase, and framed into either a machine-local
//! layout or a portable export layout with a magic/version header.  A
//! lifecycle module generates and normalizes the machine-local passphrase,
//! and a parser extracts key pairs from the output of the external key
//! generation tool.

pub mod chars;
pub mod container;
pub mod crypto;
pub mod json;
pub mod keygen;
pub mod passphrase;
pub mod records;
pub mod reports;
