//! A command-line client library for a remote project-management service.
//!
//! The heart of the library is the interactive card-edit synchronization
//! machine: it decides, poll by poll, when an externally edited scratch
//! document must be pushed to the remote service, and how failed pushes are
//! retried through an explicit user acknowledgment.  The textual form of a
//! card is produced and recovered by the verified codec, and the client
//! module assembles authenticated request URLs.

pub mod bytes;
pub mod card;
pub mod client;
pub mod codec;
pub mod session;
