//! File system devices of a machine.

use std::sync::Arc;
use vstd::prelude::*;

verus! {

/// A file system device.
pub struct FsDeviceConfig<B: ?Sized> {
    pub fs_id: String,
    pub backend: FsDeviceBackend<B>,
    pub shm_size: Option<usize>,
}

/// What a file system device serves.
pub enum FsDeviceBackend<B: ?Sized> {
    Passthrough { shared_dir: String, allow_root_dir_delete: bool, read_only: bool },
    Virtual { backend: Arc<B> },
}

impl<B: ?Sized> Clone for FsDeviceBackend<B> {
    fn clone(&self) -> (r: Self)
        ensures
            r == *self,
    {
        match self {
            FsDeviceBackend::Passthrough { shared_dir, allow_root_dir_delete, read_only } => {
                FsDeviceBackend::Passthrough {
                    shared_dir: shared_dir.clone(),
                    allow_root_dir_delete: *allow_root_dir_delete,
                    read_only: *read_only,
                }
            },
            FsDeviceBackend::Virtual { backend } => FsDeviceBackend::Virtual {
                backend: backend.clone(),
            },
        }
    }
}

impl<B: ?Sized> Clone for FsDeviceConfig<B> {
    fn clone(&self) -> (r: Self)
        ensures
            r == *self,
    {
        FsDeviceConfig {
            fs_id: self.fs_id.clone(),
            backend: self.backend.clone(),
            shm_size: self.shm_size,
        }
    }
}

} // verus!
