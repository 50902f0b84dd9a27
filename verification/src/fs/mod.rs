pub mod vfs;
pub mod ntfs;
