//! Verified core of a virtio-fs host: the rules by which guest file system
//! requests are answered from host directories, masked mounts and virtual
//! backends, and by which file system and block devices are configured.

pub mod abi;
pub mod attributes;
mod bits;
pub mod block;
pub mod bytes;
pub mod config;
pub mod fs_config;
pub mod handles;
pub mod host;
pub mod inodes;
pub mod mask_fs;
pub mod mask_set;
pub mod opening;
pub mod override_stat;
pub mod passthrough;
pub mod path_index;
pub mod protocol;
pub mod sandbox;
pub mod sandbox_metadata;
pub mod stat;
pub mod text;
pub mod virtual_fs;
pub mod worker;
