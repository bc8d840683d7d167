//! Preparation of per-server copies of a game client whose embedded server
//! endpoint has been redirected.
//!
//! The endpoint lives in a fixed-width slot of the client binary, in raw form
//! and as base64 text. Redirecting it means overwriting those bytes in place,
//! never changing the length of the file, and leaving the occurrence with the
//! highest offset of each form untouched.
//!
//! A patch request takes five steps: the base installation is acquired, a
//! copy of it is staged for the server, the staged binary is read, patched
//! in memory and written back, and on the platform that packages the client
//! as a bundle the bundle is signed again. A run request starts a staged
//! copy. The steps themselves work on disk, on the network and with
//! processes, and are carried out by the caller; this library decides what
//! is done, in which order, and to which bytes.

pub mod acquisition;
pub mod disk;
pub mod encoding;
pub mod endpoint;
pub mod error;
pub mod inflight;
pub mod launch;
pub mod layout;
pub mod patcher;
pub mod pipeline;
pub mod profiles;
pub mod search;
pub mod signing;
pub mod staging;
pub mod substitute;
pub mod text;
