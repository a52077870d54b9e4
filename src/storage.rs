//! Where transactions come from: directory trees and the sources that read
//! them.
pub mod dir_trait;
pub mod disk;
pub mod imap;
