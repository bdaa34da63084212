//! Verified core logic of the Bazzulto kernel: on-disk formats, checksums,
//! buffers, descriptor tables and decoders.

pub mod bytes;
pub mod exceptions;
pub mod ondisk;
pub mod crc32c;
pub mod chunk;
pub mod disk;
pub mod superblock;
pub mod btree;
pub mod write;
pub mod read;
pub mod inode;
pub mod btrfs;
pub mod console;
pub mod fat32;
pub mod sha256;
pub mod tty;
pub mod ring;
pub mod pipe;
pub mod fifo;
pub mod procfs;
pub mod vfs;
pub mod tmpfs;
pub mod devfs;
pub mod mount;
pub mod partition;
pub mod epoll;
pub mod socket;
pub mod pty;
pub mod ipc;
pub mod boot;
pub mod ramfs;
pub mod display;
pub mod loader;
pub mod input;
pub mod bafs_adapter;
pub mod vfs_init;

