//! The metadata of a container, and how a request to open or create one is
//! settled.

use vstd::prelude::*;
use crate::error::TsdfError;
use crate::format::{FileFormat, IoMode, ReadMode, WriteMode};

verus! {

/// What the header of a container records: the version of the library that
/// wrote it, and the format of everything after the header.
pub struct TsdfMetadata {
    version: String,
    file_format: FileFormat,
}

impl TsdfMetadata {
    /// The version of the library that wrote the file.
    pub closed spec fn spec_version(&self) -> Seq<char> {
        self.version@
    }

    /// The format of the file.
    pub closed spec fn spec_file_format(&self) -> FileFormat {
        self.file_format
    }

    pub fn new(version: String, file_format: FileFormat) -> (metadata: TsdfMetadata)
        ensures
            metadata.spec_version() == version@,
            metadata.spec_file_format() == file_format,
    {
        TsdfMetadata { version, file_format }
    }

    /// The version of the library that wrote the file.
    pub fn get_version(&self) -> (version: &str)
        ensures
            version@ == self.spec_version(),
    {
        self.version.as_str()
    }

    /// The format of the file.
    pub fn get_file_format(&self) -> (file_format: &FileFormat)
        ensures
            *file_format == self.spec_file_format(),
    {
        &self.file_format
    }
}

/// All that an operation on a container needs to know besides the bytes: what
/// the header records, and how the file was opened.
pub struct IoMetadata {
    tsdf_metadata: TsdfMetadata,
    io_mode: IoMode,
}

impl IoMetadata {
    /// What the header of the file records.
    pub closed spec fn spec_tsdf_metadata(&self) -> TsdfMetadata {
        self.tsdf_metadata
    }

    /// How the file was opened.
    pub closed spec fn spec_io_mode(&self) -> IoMode {
        self.io_mode
    }

    /// The format in which values are laid down under this metadata.
    pub open spec fn format(&self) -> FileFormat {
        self.spec_tsdf_metadata().spec_file_format()
    }

    pub fn new(tsdf_metadata: TsdfMetadata, io_mode: IoMode) -> (io_metadata: IoMetadata)
        ensures
            io_metadata.spec_tsdf_metadata() == tsdf_metadata,
            io_metadata.spec_io_mode() == io_mode,
    {
        IoMetadata { tsdf_metadata, io_mode }
    }

    /// What the header of the file records.
    pub fn get_tsdf_metadata(&self) -> (tsdf_metadata: &TsdfMetadata)
        ensures
            *tsdf_metadata == self.spec_tsdf_metadata(),
    {
        &self.tsdf_metadata
    }

    /// How the file was opened.
    pub fn get_io_mode(&self) -> (io_mode: &IoMode)
        ensures
            *io_mode == self.spec_io_mode(),
    {
        &self.io_mode
    }

    /// The format in which values are laid down under this metadata.
    pub fn file_format(&self) -> (format: FileFormat)
        ensures
            format == self.format(),
    {
        self.tsdf_metadata.file_format
    }

    /// Whether values are laid down as padded JSON under this metadata.
    pub fn is_text(&self) -> (text: bool)
        ensures
            text == self.format().is_text(),
    {
        self.tsdf_metadata.file_format.is_text()
    }
}

/// What a caller knows of a file before it is opened: the version of the
/// library at hand, the format asked for, if any, and the way the file is to
/// be opened.
pub struct UninitializedTsdfMetadata<'a> {
    current_version: &'a str,
    file_format: Option<FileFormat>,
    io_mode: IoMode,
}

/// The format that a request settles on where no file exists yet: the one
/// asked for, and `Binary` where none, or `Default`, was asked for.
pub open spec fn format_for_new_file(requested: Option<FileFormat>) -> FileFormat {
    match requested {
        Some(FileFormat::Text) => FileFormat::Text,
        _ => FileFormat::Binary,
    }
}

/// Whether a request for `requested` can be served by a file whose header
/// records `recorded`: it can where nothing particular was asked for, or
/// exactly what the header records.
pub open spec fn format_agrees(requested: Option<FileFormat>, recorded: FileFormat) -> bool {
    match requested {
        None => true,
        Some(FileFormat::Default) => true,
        Some(format) => format == recorded,
    }
}

impl<'a> UninitializedTsdfMetadata<'a> {
    /// The version of the library at hand.
    pub closed spec fn spec_current_version(&self) -> Seq<char> {
        self.current_version@
    }

    /// The format asked for, if any.
    pub closed spec fn spec_file_format(&self) -> Option<FileFormat> {
        self.file_format
    }

    /// The way the file is to be opened.
    pub closed spec fn spec_io_mode(&self) -> IoMode {
        self.io_mode
    }

    pub fn new(
        current_version: &'a str,
        file_format: Option<FileFormat>,
        io_mode: IoMode,
    ) -> (request: UninitializedTsdfMetadata<'a>)
        ensures
            request.spec_current_version() == current_version@,
            request.spec_file_format() == file_format,
            request.spec_io_mode() == io_mode,
    {
        UninitializedTsdfMetadata { current_version, file_format, io_mode }
    }

    /// A request to read, which leaves the format to the file.
    pub fn for_reader(current_version: &'a str) -> (request: UninitializedTsdfMetadata<'a>)
        ensures
            request.spec_current_version() == current_version@,
            request.spec_file_format() == None::<FileFormat>,
            request.spec_io_mode() == IoMode::Read(ReadMode::LocklessRead),
    {
        UninitializedTsdfMetadata {
            current_version,
            file_format: None,
            io_mode: IoMode::Read(ReadMode::LocklessRead),
        }
    }

    /// A request to write. Where no write mode is given, the writer does not
    /// lock.
    pub fn for_writer(
        current_version: &'a str,
        write_mode: Option<WriteMode>,
        file_format: Option<FileFormat>,
    ) -> (request: UninitializedTsdfMetadata<'a>)
        ensures
            request.spec_current_version() == current_version@,
            request.spec_file_format() == file_format,
            request.spec_io_mode() == IoMode::Write(
                match write_mode {
                    Some(mode) => mode,
                    None => WriteMode::LocklessWrite,
                },
            ),
    {
        let mode = match write_mode {
            Some(mode) => mode,
            None => WriteMode::LocklessWrite,
        };
        UninitializedTsdfMetadata { current_version, file_format, io_mode: IoMode::Write(mode) }
    }

    /// The version of the library at hand.
    pub fn get_current_version(&self) -> (version: &str)
        ensures
            version@ == self.spec_current_version(),
    {
        self.current_version
    }

    /// The format asked for, if any.
    pub fn get_file_format(&self) -> (file_format: &Option<FileFormat>)
        ensures
            *file_format == self.spec_file_format(),
    {
        &self.file_format
    }

    /// The way the file is to be opened.
    pub fn get_io_mode(&self) -> (io_mode: &IoMode)
        ensures
            *io_mode == self.spec_io_mode(),
    {
        &self.io_mode
    }

    /// The metadata of a file that is created from this request: it records
    /// the version at hand and the format that the request settles on.
    pub fn create(&self) -> (io_metadata: IoMetadata)
        ensures
            io_metadata.spec_tsdf_metadata().spec_version() == self.spec_current_version(),
            io_metadata.format() == format_for_new_file(self.spec_file_format()),
            io_metadata.spec_io_mode() == self.spec_io_mode(),
    {
        let file_format = match self.file_format {
            Some(FileFormat::Text) => FileFormat::Text,
            _ => FileFormat::Binary,
        };
        let version = self.current_version.to_owned();
        IoMetadata::new(TsdfMetadata::new(version, file_format), self.io_mode)
    }

    /// The metadata under which an existing file is opened from this request,
    /// given what its header records. The header decides version and format.
    /// A request for a particular format that the header does not record is
    /// refused with `FormatMismatch`.
    pub fn open(&self, recorded: TsdfMetadata) -> (r: Result<IoMetadata, TsdfError>)
        ensures
            match r {
                Ok(io_metadata) => {
                    &&& format_agrees(self.spec_file_format(), recorded.spec_file_format())
                    &&& io_metadata.spec_tsdf_metadata() == recorded
                    &&& io_metadata.spec_io_mode() == self.spec_io_mode()
                },
                Err(e) => {
                    &&& !format_agrees(self.spec_file_format(), recorded.spec_file_format())
                    &&& e == TsdfError::FormatMismatch
                },
            },
    {
        let agrees = match self.file_format {
            None => true,
            Some(FileFormat::Default) => true,
            Some(FileFormat::Binary) => match recorded.file_format {
                FileFormat::Binary => true,
                _ => false,
            },
            Some(FileFormat::Text) => match recorded.file_format {
                FileFormat::Text => true,
                _ => false,
            },
        };
        if agrees {
            Ok(IoMetadata::new(recorded, self.io_mode))
        } else {
            Err(TsdfError::FormatMismatch)
        }
    }
}

} // verus!
