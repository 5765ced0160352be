//! Verified decision logic for a Windows disk-cleanup server: which registry
//! entries point to missing files, which `AppData` folders are leftovers,
//! which downloads are obsolete, which folders are large, and how the paths
//! and command lines that Windows stores are read.
pub mod text;
pub mod command;
pub mod encoding;
pub mod envpath;
pub mod sizes;
pub mod appdata;
pub mod registry;
pub mod scan;
