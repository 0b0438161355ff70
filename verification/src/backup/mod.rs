//! Backups: encrypting them, checking them, naming them, and putting them back.

pub mod archive;
pub mod crypto;
pub mod manager;
pub mod restore;
pub mod s3;
