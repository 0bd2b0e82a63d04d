//! File formats, and the modes in which a file is opened.

use vstd::prelude::*;

verus! {

/// How the objects of a container are laid down on disk.
///
/// Production files are `Binary`. `Text` is for inspection while developing.
#[derive(Clone, Copy, Debug, PartialEq, Eq, Structural)]
pub enum FileFormat {
    /// Take `Binary` for a new file, and the recorded format of an existing
    /// one.
    Default,
    /// Compact, fixed-width, little-endian.
    Binary,
    /// One JSON object per value, padded on the right with spaces to a fixed
    /// width.
    Text,
}

impl FileFormat {
    /// Whether values are laid down as padded JSON. Every other choice lays
    /// them down in binary.
    #[verifier::when_used_as_spec(spec_is_text)]
    pub fn is_text(&self) -> (text: bool)
        ensures
            text == self.spec_is_text(),
    {
        match self {
            FileFormat::Text => true,
            _ => false,
        }
    }

    /// Whether values are laid down as padded JSON.
    pub open spec fn spec_is_text(&self) -> bool {
        *self == FileFormat::Text
    }
}

/// How a reader goes about the file.
#[derive(Clone, Copy, Debug, PartialEq, Eq, Structural)]
pub enum ReadMode {
    /// Read without ever placing a lock on the file.
    LocklessRead,
}

/// How a writer goes about the file.
#[derive(Clone, Copy, Debug, PartialEq, Eq, Structural)]
pub enum WriteMode {
    /// Write without locking. Readers go on reading; data cannot be deleted.
    LocklessWrite,
    /// Write under a lock. Everything is allowed, and readers wait.
    LockingWrite,
}

/// Whether the file is open for reading or for writing, and how.
#[derive(Clone, Copy, Debug, PartialEq, Eq, Structural)]
pub enum IoMode {
    Read(ReadMode),
    Write(WriteMode),
}

} // verus!
