pub mod path;
pub mod vfs;
pub mod ramdisk;
pub mod ata;
