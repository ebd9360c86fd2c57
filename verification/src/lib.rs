//! Core of a terminal password manager and authenticator: a credential
//! store with soft deletion and save-time compaction, a proportional
//! viewport over long lists, a code-point-aware text editor, a TOTP code
//! cache, the modal session state machine, and the encrypted JSON
//! persistence lifecycle.

pub mod codec;
pub mod crypto;
pub mod editor;
pub mod keys;
pub mod persist;
pub mod session;
pub mod store;
pub mod text;
pub mod totp;
pub mod viewport;
