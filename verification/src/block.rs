//! Block devices of a machine.

use std::collections::VecDeque;
use vstd::prelude::*;
use vstd::string::StringExecFns;

verus! {

/// An error of the host's I/O, as the standard library reports it.
#[verifier::external_type_specification]
#[verifier::external_body]
pub struct ExIoError(std::io::Error);

/// Why a block device could not be configured.
#[derive(Debug)]
pub enum BlockConfigError {
    /// Failed to create the block device.
    CreateBlockDevice(std::io::Error),
}

/// The text of an I/O error by its `Debug` implementation. What the text says is
/// the standard library's matter; nothing is claimed of it.
#[verifier::external_body]
fn debug_text(error: &std::io::Error) -> (r: String) {
    format!("{error:?}")
}

/// The message about a block device that could not be created, for the text of
/// the error behind it.
pub fn create_failure_message(text: &str) -> (r: String)
    ensures
        r@ == "Cannot create block device: "@ + text@,
{
    let mut message = "Cannot create block device: ".to_owned();
    message.append(text);
    message
}

/// `text` is what the standard library gave as the text of this very error.
pub closed spec fn is_debug_text(error: std::io::Error, text: Seq<char>) -> bool {
    exists|given: String| #[trigger]
        call_ensures(debug_text, (&error,), given) && given@ == text
}

impl BlockConfigError {
    /// The message for this error, with the text of the error behind it.
    pub fn message(&self) -> (r: String)
        ensures
            exists|text: Seq<char>| #[trigger]
                is_debug_text(self->CreateBlockDevice_0, text) && r@
                    == "Cannot create block device: "@ + text,
    {
        match self {
            BlockConfigError::CreateBlockDevice(error) => {
                let text = debug_text(error);
                assert(is_debug_text(*error, text@));
                create_failure_message(text.as_str())
            },
        }
    }
}

/// A block device: its name, its image, and how it is accessed. `C` says how it
/// is cached, `F` is an image format, `M` says how writes become durable, and `S`
/// is an open image.
#[derive(Clone)]
pub struct BlockDeviceConfig<C, F, M, S> {
    pub block_id: String,
    pub cache_type: C,
    pub source: BlockDeviceSource<F, S>,
    pub is_disk_read_only: bool,
    pub direct_io: bool,
    pub sync_mode: M,
}

/// The image of a block device.
#[derive(Clone)]
pub enum BlockDeviceSource<F, S> {
    Path { disk_image_path: String, disk_image_format: F },
    Storage { disk_image: S },
}

/// The file system on a block device that a machine starts from.
#[derive(Clone, Debug, Eq, PartialEq)]
pub struct BlockRootConfig {
    pub device: String,
    pub fstype: Option<String>,
    pub options: Option<String>,
}

/// What a block device is made of. A partition is never given.
pub enum BlockParts<C, F, M, S> {
    Path {
        block_id: String,
        partuuid: Option<String>,
        cache_type: C,
        disk_image_path: String,
        disk_image_format: F,
        is_disk_read_only: bool,
        direct_io: bool,
        sync_mode: M,
    },
    /// An open image is accessed in its own way.
    Storage {
        block_id: String,
        partuuid: Option<String>,
        cache_type: C,
        disk_image: S,
        is_disk_read_only: bool,
        sync_mode: M,
    },
}

/// What a configured block device is made of.
pub open spec fn parts_of<C, F, M, S>(config: BlockDeviceConfig<C, F, M, S>) -> BlockParts<
    C,
    F,
    M,
    S,
> {
    match config.source {
        BlockDeviceSource::Path { disk_image_path, disk_image_format } => BlockParts::Path {
            block_id: config.block_id,
            partuuid: None,
            cache_type: config.cache_type,
            disk_image_path,
            disk_image_format,
            is_disk_read_only: config.is_disk_read_only,
            direct_io: config.direct_io,
            sync_mode: config.sync_mode,
        },
        BlockDeviceSource::Storage { disk_image } => BlockParts::Storage {
            block_id: config.block_id,
            partuuid: None,
            cache_type: config.cache_type,
            disk_image,
            is_disk_read_only: config.is_disk_read_only,
            sync_mode: config.sync_mode,
        },
    }
}

/// An I/O error as the reason why a block device could not be created.
pub open spec fn created<B>(made: Result<B, std::io::Error>) -> Result<B, BlockConfigError> {
    match made {
        Ok(block) => Ok(block),
        Err(error) => Err(BlockConfigError::CreateBlockDevice(error)),
    }
}

/// The block devices of a machine, in the order in which they were configured.
pub struct BlockBuilder<B> {
    pub list: VecDeque<B>,
}

impl<B> Default for BlockBuilder<B> {
    fn default() -> (r: Self)
        ensures
            r.list@ == Seq::<B>::empty(),
    {
        BlockBuilder::new()
    }
}

impl<B> BlockBuilder<B> {
    pub fn new() -> (r: Self)
        ensures
            r.list@ == Seq::<B>::empty(),
    {
        BlockBuilder { list: VecDeque::new() }
    }

    /// Creates a block device with `make` and adds it behind the others. A device
    /// that cannot be created leaves the others as they are.
    pub fn insert<C, F, M, S, K>(
        &mut self,
        config: BlockDeviceConfig<C, F, M, S>,
        make: K,
    ) -> (r: Result<(), BlockConfigError>) where
        K: FnOnce(BlockParts<C, F, M, S>) -> Result<B, std::io::Error>,

        requires
            make.requires((parts_of(config),)),
        ensures
            exists|made: Result<B, std::io::Error>| #[trigger]
                make.ensures((parts_of(config),), made) && match made {
                    Ok(block) => r is Ok && final(self).list@ == old(self).list@.push(block),
                    Err(error) => r == Err::<(), BlockConfigError>(
                        BlockConfigError::CreateBlockDevice(error),
                    ) && final(self).list@ == old(self).list@,
                },
    {
        match Self::create_block(config, make) {
            Ok(block) => {
                self.list.push_back(block);
                Ok(())
            },
            Err(error) => Err(error),
        }
    }

    /// Creates a block device with `make`.
    pub fn create_block<C, F, M, S, K>(
        config: BlockDeviceConfig<C, F, M, S>,
        make: K,
    ) -> (r: Result<B, BlockConfigError>) where
        K: FnOnce(BlockParts<C, F, M, S>) -> Result<B, std::io::Error>,

        requires
            make.requires((parts_of(config),)),
        ensures
            exists|made: Result<B, std::io::Error>| #[trigger]
                make.ensures((parts_of(config),), made) && r == created(made),
    {
        let parts = match config.source {
            BlockDeviceSource::Path { disk_image_path, disk_image_format } => BlockParts::Path {
                block_id: config.block_id,
                partuuid: None,
                cache_type: config.cache_type,
                disk_image_path,
                disk_image_format,
                is_disk_read_only: config.is_disk_read_only,
                direct_io: config.direct_io,
                sync_mode: config.sync_mode,
            },
            BlockDeviceSource::Storage { disk_image } => BlockParts::Storage {
                block_id: config.block_id,
                partuuid: None,
                cache_type: config.cache_type,
                disk_image,
                is_disk_read_only: config.is_disk_read_only,
                sync_mode: config.sync_mode,
            },
        };
        let made = make(parts);
        match made {
            Ok(block) => Ok(block),
            Err(error) => Err(BlockConfigError::CreateBlockDevice(error)),
        }
    }
}

/// A device is made of what was configured: the image by its path and format with
/// the way in which it is accessed, or an image that is open. A partition is never
/// given.
pub proof fn parts_are_those_configured<C, F, M, S>(config: BlockDeviceConfig<C, F, M, S>)
    ensures
        match parts_of(config) {
            BlockParts::Path {
                block_id,
                partuuid,
                cache_type,
                disk_image_path,
                disk_image_format,
                is_disk_read_only,
                direct_io,
                sync_mode,
            } => {
                &&& config.source == (BlockDeviceSource::<F, S>::Path {
                    disk_image_path,
                    disk_image_format,
                })
                &&& block_id == config.block_id
                &&& partuuid is None
                &&& cache_type == config.cache_type
                &&& is_disk_read_only == config.is_disk_read_only
                &&& direct_io == config.direct_io
                &&& sync_mode == config.sync_mode
            },
            BlockParts::Storage {
                block_id,
                partuuid,
                cache_type,
                disk_image,
                is_disk_read_only,
                sync_mode,
            } => {
                &&& config.source == (BlockDeviceSource::<F, S>::Storage { disk_image })
                &&& block_id == config.block_id
                &&& partuuid is None
                &&& cache_type == config.cache_type
                &&& is_disk_read_only == config.is_disk_read_only
                &&& sync_mode == config.sync_mode
            },
        },
{
}

/// A device that was made is the one that is added, and an error is the reason
/// that is given for it.
pub proof fn errors_are_reported_as_they_are<B>(block: B, error: std::io::Error)
    ensures
        created(Ok::<B, std::io::Error>(block)) == Ok::<B, BlockConfigError>(block),
        created(Err::<B, std::io::Error>(error)) == Err::<B, BlockConfigError>(
            BlockConfigError::CreateBlockDevice(error),
        ),
{
}

} // verus!
