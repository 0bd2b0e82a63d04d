//! The bytes of a container, read and written by offset.

use vstd::prelude::*;
use crate::error::TsdfError;

verus! {

/// One positional write: the bytes `data` placed at offset `addr`.
pub struct WriteRecord {
    pub addr: int,
    pub data: Seq<u8>,
}

/// The mathematical state of a container: its bytes, and the positional
/// writes that were issued against it.
///
/// The order of the writes is part of what an operation promises: whoever
/// reads the same file meanwhile sees each write as it lands, so a commit
/// flag has to be written after what it commits.
pub struct ImageState {
    /// The bytes that the container holds.
    pub bytes: Seq<u8>,
    /// Every write issued so far, oldest first.
    pub writes: Seq<WriteRecord>,
    /// Whether writes are kept for whoever carries them to disk.
    pub recording: bool,
    /// The writes that are kept and not yet taken, oldest first.
    pub pending: Seq<WriteRecord>,
}

/// The bytes that result from placing `data` at offset `addr` of `bytes`.
/// A write that reaches past the end grows the container; a gap between the
/// old end and `addr` reads as zero.
pub open spec fn bytes_after_write(bytes: Seq<u8>, addr: int, data: Seq<u8>) -> Seq<u8> {
    let end = addr + data.len();
    let len = if end > bytes.len() {
        end
    } else {
        bytes.len() as int
    };
    Seq::new(
        len as nat,
        |i: int|
            if addr <= i < end {
                data[i - addr]
            } else if i < bytes.len() {
                bytes[i]
            } else {
                0u8
            },
    )
}

impl ImageState {
    /// The state after one more positional write.
    pub open spec fn write(self, addr: int, data: Seq<u8>) -> ImageState {
        ImageState {
            bytes: bytes_after_write(self.bytes, addr, data),
            writes: self.writes.push(WriteRecord { addr, data }),
            recording: self.recording,
            pending: if self.recording {
                self.pending.push(WriteRecord { addr, data })
            } else {
                self.pending
            },
        }
    }

    /// The state of a container that holds `bytes` and against which nothing
    /// was written yet.
    pub open spec fn fresh(bytes: Seq<u8>, recording: bool) -> ImageState {
        ImageState {
            bytes,
            writes: Seq::<WriteRecord>::empty(),
            recording,
            pending: Seq::<WriteRecord>::empty(),
        }
    }
}

/// One positional write that is kept for whoever carries it to disk.
pub struct WriteEntry {
    pub addr: u64,
    pub data: Vec<u8>,
}

impl View for WriteEntry {
    type V = WriteRecord;

    open spec fn view(&self) -> WriteRecord {
        WriteRecord { addr: self.addr as int, data: self.data@ }
    }
}

/// The writes that a run of kept writes stands for.
pub open spec fn records_of(entries: Seq<WriteEntry>) -> Seq<WriteRecord> {
    entries.map_values(|entry: WriteEntry| entry@)
}

/// The state after one positional write of `data` at `addr`, and what the
/// write reports: `IoFailure`, with nothing written, where the write would
/// end beyond what memory can address.
pub open spec fn write_outcome(state: ImageState, addr: int, data: Seq<u8>) -> (
    ImageState,
    Result<(), TsdfError>,
) {
    if addr + data.len() <= usize::MAX {
        (state.write(addr, data), Ok(()))
    } else {
        (state, Err(TsdfError::IoFailure))
    }
}

/// The `count` bytes at offset `addr`, where the container holds that many.
pub open spec fn bytes_at(bytes: Seq<u8>, addr: int, count: int) -> Option<Seq<u8>> {
    if 0 <= addr && 0 <= count && addr + count <= bytes.len() {
        Some(bytes.subrange(addr as int, addr + count))
    } else {
        None
    }
}

/// The contents of a container, held in memory and addressed by byte offset.
pub struct FileImage {
    bytes: Vec<u8>,
    journal: Ghost<Seq<WriteRecord>>,
    recording: bool,
    pending: Vec<WriteEntry>,
}

impl View for FileImage {
    type V = ImageState;

    closed spec fn view(&self) -> ImageState {
        ImageState {
            bytes: self.bytes@,
            writes: self.journal@,
            recording: self.recording,
            pending: records_of(self.pending@),
        }
    }
}

impl FileImage {
    /// An empty container against which nothing has been written. It keeps
    /// no writes.
    pub fn new() -> (image: FileImage)
        ensures
            image@ == ImageState::fresh(Seq::<u8>::empty(), false),
    {
        let image = FileImage {
            bytes: Vec::new(),
            journal: Ghost(Seq::empty()),
            recording: false,
            pending: Vec::new(),
        };
        assert(records_of(image.pending@) =~= Seq::<WriteRecord>::empty());
        image
    }

    /// A container that starts out holding `bytes`. It keeps no writes.
    pub fn from_bytes(bytes: Vec<u8>) -> (image: FileImage)
        ensures
            image@ == ImageState::fresh(bytes@, false),
    {
        let image = FileImage {
            bytes,
            journal: Ghost(Seq::empty()),
            recording: false,
            pending: Vec::new(),
        };
        assert(records_of(image.pending@) =~= Seq::<WriteRecord>::empty());
        image
    }

    /// A container that starts out holding `bytes`, and that keeps every
    /// write until it is taken, so that the writes can be carried to a file
    /// on disk one by one, in the order in which they were issued.
    pub fn recording(bytes: Vec<u8>) -> (image: FileImage)
        ensures
            image@ == ImageState::fresh(bytes@, true),
    {
        let image = FileImage {
            bytes,
            journal: Ghost(Seq::empty()),
            recording: true,
            pending: Vec::new(),
        };
        assert(records_of(image.pending@) =~= Seq::<WriteRecord>::empty());
        image
    }

    /// Takes the writes that were kept since they were last taken, oldest
    /// first. The bytes of the container stay as they are.
    pub fn take_pending(&mut self) -> (entries: Vec<WriteEntry>)
        ensures
            records_of(entries@) == old(self)@.pending,
            final(self)@ == (ImageState { pending: Seq::<WriteRecord>::empty(), ..old(self)@ }),
    {
        let mut entries: Vec<WriteEntry> = Vec::new();
        std::mem::swap(&mut entries, &mut self.pending);
        assert(records_of(self.pending@) =~= Seq::<WriteRecord>::empty());
        entries
    }

    /// The bytes of the container.
    pub fn as_bytes(&self) -> (bytes: &Vec<u8>)
        ensures
            bytes@ == self@.bytes,
    {
        &self.bytes
    }

    /// The length of the container in bytes.
    pub fn len(&self) -> (len: u64)
        ensures
            len == self@.bytes.len(),
            len <= usize::MAX,
    {
        self.bytes.len() as u64
    }

    /// Reads the byte at offset `addr`. Fails with `IoFailure` where the
    /// container ends at or before `addr`.
    pub fn read_byte(&self, addr: u64) -> (r: Result<u8, TsdfError>)
        ensures
            r == (if addr < self@.bytes.len() {
                Ok::<u8, TsdfError>(self@.bytes[addr as int])
            } else {
                Err::<u8, TsdfError>(TsdfError::IoFailure)
            }),
    {
        if addr < self.bytes.len() as u64 {
            Ok(self.bytes[addr as usize])
        } else {
            Err(TsdfError::IoFailure)
        }
    }

    /// Reads exactly `count` bytes from offset `addr`. Fails with `IoFailure`
    /// where the container does not hold that many from there.
    pub fn read_at(&self, addr: u64, count: u64) -> (r: Result<Vec<u8>, TsdfError>)
        ensures
            match r {
                Ok(data) => bytes_at(self@.bytes, addr as int, count as int) == Some(data@),
                Err(e) => e == TsdfError::IoFailure && bytes_at(
                    self@.bytes,
                    addr as int,
                    count as int,
                ) is None,
            },
    {
        let len = self.bytes.len() as u64;
        if addr > len || count > len - addr {
            return Err(TsdfError::IoFailure);
        }
        let start = addr as usize;
        let n = count as usize;
        let mut data: Vec<u8> = Vec::new();
        let mut i: usize = 0;
        while i < n
            invariant
                i <= n,
                start + n <= self.bytes.len(),
                data@ == self.bytes@.subrange(start as int, start + i),
            decreases n - i,
        {
            data.push(self.bytes[start + i]);
            i = i + 1;
            assert(data@ =~= self.bytes@.subrange(start as int, start + i));
        }
        Ok(data)
    }

    /// Places the single byte `byte` at offset `addr`, as `write_at` does.
    pub fn write_byte(&mut self, addr: u64, byte: u8) -> (r: Result<(), TsdfError>)
        ensures
            (final(self)@, r) == write_outcome(old(self)@, addr as int, seq![byte]),
    {
        let mut data: Vec<u8> = Vec::new();
        data.push(byte);
        assert(data@ =~= seq![byte]);
        self.write_at(addr, data.as_slice())
    }

    /// Places `data` at offset `addr`, growing the container where the write
    /// reaches past its end. Fails with `IoFailure`, and writes nothing, where
    /// the write would end beyond what memory can address.
    pub fn write_at(&mut self, addr: u64, data: &[u8]) -> (r: Result<(), TsdfError>)
        ensures
            (final(self)@, r) == write_outcome(old(self)@, addr as int, data@),
    {
        let n = data.len();
        if addr > usize::MAX as u64 || n > usize::MAX - (addr as usize) {
            return Err(TsdfError::IoFailure);
        }
        let start = addr as usize;
        let end = start + n;
        while self.bytes.len() < end
            invariant
                self.journal@ == old(self).journal@,
                self.recording == old(self).recording,
                self.pending@ == old(self).pending@,
                old(self).bytes@.len() <= self.bytes@.len(),
                self.bytes@.len() <= end || self.bytes@.len() == old(self).bytes@.len(),
                forall|j: int|
                    0 <= j < old(self).bytes@.len() ==> self.bytes@[j] == old(self).bytes@[j],
                forall|j: int|
                    old(self).bytes@.len() <= j < self.bytes@.len() ==> self.bytes@[j] == 0u8,
            decreases end - self.bytes.len(),
        {
            self.bytes.push(0u8);
        }
        let ghost padded = self.bytes@;
        let mut i: usize = 0;
        while i < n
            invariant
                i <= n,
                n == data@.len(),
                end == start + n,
                self.journal@ == old(self).journal@,
                self.recording == old(self).recording,
                self.pending@ == old(self).pending@,
                self.bytes@.len() == padded.len(),
                end <= padded.len(),
                padded.len() == (if end > old(self).bytes@.len() {
                    end as int
                } else {
                    old(self).bytes@.len() as int
                }),
                forall|j: int| 0 <= j < old(self).bytes@.len() ==> padded[j] == old(self).bytes@[j],
                forall|j: int| old(self).bytes@.len() <= j < padded.len() ==> padded[j] == 0u8,
                forall|j: int| start <= j < start + i ==> self.bytes@[j] == data@[j - start],
                forall|j: int|
                    0 <= j < padded.len() && !(start <= j < start + i) ==> self.bytes@[j]
                        == padded[j],
            decreases n - i,
        {
            self.bytes.set(start + i, data[i]);
            i = i + 1;
        }
        self.journal = Ghost(self.journal@.push(WriteRecord { addr: addr as int, data: data@ }));
        if self.recording {
            let mut kept: Vec<u8> = Vec::new();
            let mut k: usize = 0;
            while k < n
                invariant
                    k <= n,
                    n == data@.len(),
                    kept@ == data@.subrange(0, k as int),
                decreases n - k,
            {
                kept.push(data[k]);
                k = k + 1;
                assert(kept@ =~= data@.subrange(0, k as int));
            }
            assert(data@.subrange(0, n as int) =~= data@);
            let ghost before = self.pending@;
            self.pending.push(WriteEntry { addr, data: kept });
            assert(records_of(self.pending@) =~= records_of(before).push(
                WriteRecord { addr: addr as int, data: data@ },
            ));
        }
        proof {
            let expected = bytes_after_write(old(self).bytes@, addr as int, data@);
            assert(self.bytes@.len() == expected.len());
            assert forall|j: int| 0 <= j < expected.len() implies self.bytes@[j] == expected[j] by {
                if start <= j < end {
                } else {
                    assert(self.bytes@[j] == padded[j]);
                }
            }
            assert(self.bytes@ =~= expected);
        }
        Ok(())
    }
}

} // verus!
