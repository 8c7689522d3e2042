//! Decision logic of a disk-image installer: what to write to which disk, and
//! how to let the written image take up the space that is left on the disk.

pub mod app;
pub mod bytes;
pub mod disk;
pub mod grow;
pub mod init;
pub mod loading;
pub mod modload;
pub mod order;
pub mod paths;
pub mod sat;
pub mod text;
pub mod theme;
pub mod utils;
