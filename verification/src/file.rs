//! An open container: its header, its metadata and its bytes.

use vstd::prelude::*;
use crate::error::TsdfError;
use crate::format::{FileFormat, IoMode};
use crate::image::{FileImage, ImageState};
use crate::metadata::{
    format_agrees, format_for_new_file, IoMetadata, TsdfMetadata, UninitializedTsdfMetadata,
};

verus! {

/// Whether `bytes` ends with `marker`.
pub open spec fn ends_with(bytes: Seq<u8>, marker: Seq<u8>) -> bool {
    marker.len() <= bytes.len() && bytes.subrange(bytes.len() - marker.len(), bytes.len() as int)
        == marker
}

/// Whether the header of a container that holds `bytes` ends right before
/// offset `end`: the first `end` bytes are the shortest beginning of the
/// container, of one byte at least, that ends with `marker`.
pub open spec fn is_header_end(bytes: Seq<u8>, marker: Seq<u8>, end: int) -> bool {
    &&& 1 <= end <= bytes.len()
    &&& ends_with(bytes.subrange(0, end), marker)
    &&& forall|shorter: int|
        1 <= shorter < end ==> !ends_with(#[trigger] bytes.subrange(0, shorter), marker)
}

/// Whether the last bytes of `bytes[..end]` are those of `marker`.
fn ends_with_at(bytes: &[u8], marker: &[u8], end: usize) -> (r: bool)
    requires
        end <= bytes@.len(),
    ensures
        r == ends_with(bytes@.subrange(0, end as int), marker@),
{
    if marker.len() > end {
        return false;
    }
    let start = end - marker.len();
    let ghost head = bytes@.subrange(0, end as int);
    let mut i: usize = 0;
    while i < marker.len()
        invariant
            i <= marker@.len(),
            start + marker@.len() == end,
            end <= bytes@.len(),
            head == bytes@.subrange(0, end as int),
            forall|j: int| 0 <= j < i ==> bytes@[start + j] == marker@[j],
        decreases marker@.len() - i,
    {
        if bytes[start + i] != marker[i] {
            proof {
                let tail = head.subrange(head.len() - marker@.len(), head.len() as int);
                assert(tail[i as int] == bytes@[start + i]);
            }
            return false;
        }
        i = i + 1;
    }
    assert(head.subrange(head.len() - marker@.len(), head.len() as int) =~= marker@);
    true
}

/// Where the header of a container ends: the offset right behind the first
/// occurrence of `marker` that ends at offset one or later. The JSON of the
/// header stands before the marker, and the body of the container begins at
/// the offset. `None` where the container holds no such marker.
pub fn find_header_end(bytes: &[u8], marker: &[u8]) -> (r: Option<usize>)
    ensures
        match r {
            Some(end) => is_header_end(bytes@, marker@, end as int),
            None => forall|end: int|
                1 <= end <= bytes@.len() ==> !ends_with(
                    #[trigger] bytes@.subrange(0, end),
                    marker@,
                ),
        },
{
    let mut before: usize = 0;
    while before < bytes.len()
        invariant
            before <= bytes@.len(),
            forall|shorter: int|
                1 <= shorter <= before ==> !ends_with(
                    #[trigger] bytes@.subrange(0, shorter),
                    marker@,
                ),
        decreases bytes@.len() - before,
    {
        let end = before + 1;
        if ends_with_at(bytes, marker, end) {
            return Some(end);
        }
        before = end;
    }
    None
}

/// The image of a container that is open in `io_mode`: one that keeps its
/// writes where the container is open for writing.
fn image_for(io_mode: &IoMode, bytes: Vec<u8>) -> (image: FileImage)
    ensures
        image@ == ImageState::fresh(bytes@, *io_mode is Write),
{
    match io_mode {
        IoMode::Write(_) => FileImage::recording(bytes),
        IoMode::Read(_) => FileImage::from_bytes(bytes),
    }
}

/// What every open container can tell about itself.
pub trait TsdfFileTrait {
    /// The metadata under which the container is open.
    spec fn spec_io_metadata(&self) -> IoMetadata;

    /// The number of bytes that the container holds.
    spec fn spec_size(&self) -> int;

    /// The version of the library that wrote the file.
    fn get_version(&self) -> (version: &str)
        ensures
            version@ == self.spec_io_metadata().spec_tsdf_metadata().spec_version(),
    ;

    /// How the file was opened.
    fn get_io_mode(&self) -> (io_mode: &IoMode)
        ensures
            *io_mode == self.spec_io_metadata().spec_io_mode(),
    ;

    /// The format of the file.
    fn get_file_format(&self) -> (file_format: &FileFormat)
        ensures
            *file_format == self.spec_io_metadata().format(),
    ;

    /// The metadata under which the container is open.
    fn get_io_metadata(&self) -> (io_metadata: &IoMetadata)
        ensures
            *io_metadata == self.spec_io_metadata(),
    ;

    /// What the header of the file records.
    fn get_tsdf_metadata(&self) -> (tsdf_metadata: &TsdfMetadata)
        ensures
            *tsdf_metadata == self.spec_io_metadata().spec_tsdf_metadata(),
    ;

    /// The size of the file, in bytes.
    fn get_size(&self) -> (size: u64)
        ensures
            size == self.spec_size(),
    ;
}

/// An open container: its bytes, and the metadata under which they are read
/// and written.
pub struct TsdfFile {
    io_metadata: IoMetadata,
    image: FileImage,
}

impl TsdfFile {
    /// The state of the bytes of the container.
    pub closed spec fn spec_image(&self) -> ImageState {
        self.image@
    }

    /// A container that holds `image` and is open under `io_metadata`.
    pub fn new(io_metadata: IoMetadata, image: FileImage) -> (file: TsdfFile)
        ensures
            file.spec_io_metadata() == io_metadata,
            file.spec_image() == image@,
    {
        TsdfFile { io_metadata, image }
    }

    /// A new container from a request: it starts out holding `header`, the
    /// JSON of its metadata and the marker behind it, and is open under the
    /// metadata that the request settles on for a new file. A container that
    /// is open for writing keeps its writes for whoever carries them to disk.
    pub fn create(request: &UninitializedTsdfMetadata, header: Vec<u8>) -> (file: TsdfFile)
        ensures
            file.spec_image() == ImageState::fresh(header@, request.spec_io_mode() is Write),
            file.spec_io_metadata().format() == format_for_new_file(request.spec_file_format()),
            file.spec_io_metadata().spec_io_mode() == request.spec_io_mode(),
            file.spec_io_metadata().spec_tsdf_metadata().spec_version()
                == request.spec_current_version(),
    {
        let io_metadata = request.create();
        let image = image_for(io_metadata.get_io_mode(), header);
        TsdfFile { io_metadata, image }
    }

    /// An existing container from a request: it holds `bytes` and is open
    /// under what its header records, `recorded`. A request for a particular
    /// format that the header does not record is refused with
    /// `FormatMismatch`.
    pub fn open(request: &UninitializedTsdfMetadata, recorded: TsdfMetadata, bytes: Vec<u8>) -> (r:
        Result<TsdfFile, TsdfError>)
        ensures
            match r {
                Ok(file) => {
                    &&& format_agrees(request.spec_file_format(), recorded.spec_file_format())
                    &&& file.spec_image() == ImageState::fresh(
                        bytes@,
                        request.spec_io_mode() is Write,
                    )
                    &&& file.spec_io_metadata().spec_tsdf_metadata() == recorded
                    &&& file.spec_io_metadata().spec_io_mode() == request.spec_io_mode()
                },
                Err(e) => {
                    &&& e == TsdfError::FormatMismatch
                    &&& !format_agrees(request.spec_file_format(), recorded.spec_file_format())
                },
            },
    {
        match request.open(recorded) {
            Err(e) => Err(e),
            Ok(io_metadata) => {
                let image = image_for(io_metadata.get_io_mode(), bytes);
                Ok(TsdfFile { io_metadata, image })
            },
        }
    }

    /// The bytes of the container.
    pub fn get_image(&self) -> (image: &FileImage)
        ensures
            image@ == self.spec_image(),
    {
        &self.image
    }

    /// The container taken apart: its metadata and its bytes.
    pub fn into_parts(self) -> (parts: (IoMetadata, FileImage))
        ensures
            parts.0 == self.spec_io_metadata(),
            parts.1@ == self.spec_image(),
    {
        (self.io_metadata, self.image)
    }
}

impl TsdfFileTrait for TsdfFile {
    closed spec fn spec_io_metadata(&self) -> IoMetadata {
        self.io_metadata
    }

    closed spec fn spec_size(&self) -> int {
        self.image@.bytes.len() as int
    }

    fn get_version(&self) -> (version: &str) {
        self.io_metadata.get_tsdf_metadata().get_version()
    }

    fn get_io_mode(&self) -> (io_mode: &IoMode) {
        self.io_metadata.get_io_mode()
    }

    fn get_file_format(&self) -> (file_format: &FileFormat) {
        self.io_metadata.get_tsdf_metadata().get_file_format()
    }

    fn get_io_metadata(&self) -> (io_metadata: &IoMetadata) {
        &self.io_metadata
    }

    fn get_tsdf_metadata(&self) -> (tsdf_metadata: &TsdfMetadata) {
        self.io_metadata.get_tsdf_metadata()
    }

    fn get_size(&self) -> (size: u64) {
        self.image.len()
    }
}

} // verus!
