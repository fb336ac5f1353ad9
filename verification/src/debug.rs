use vstd::prelude::*;
use crate::bytes::{find_nul, le_u16, le_u32, nul_pos, read_u16, read_u32};
use crate::error::Error;
use crate::image::{Image, DIR_DEBUG};

verus! {

/// Type of an entry that describes a CodeView record.
pub const DEBUG_CODEVIEW: u32 = 2;

/// Type of an entry that counts the features of the compiler that were used.
pub const DEBUG_VC_FEATURE: u32 = 12;

/// Type of an entry that describes a profile-guided optimisation record.
pub const DEBUG_POGO: u32 = 13;

/// Type of an entry that marks a reproducible build.
pub const DEBUG_REPRO: u32 = 16;

/// The signature of a CodeView record that names a PDB: `RSDS`.
pub const RSDS: u32 = 0x5344_5352;

/// One entry of the debug directory.
#[derive(Clone, Copy, Debug, PartialEq, Eq, Structural)]
pub struct DebugEntry {
    pub characteristics: u32,
    pub time_date_stamp: u32,
    pub major_version: u16,
    pub minor_version: u16,
    pub kind: u32,
    pub size_of_data: u32,
    /// RVA of the record, zero where it is not mapped.
    pub address_of_raw_data: u32,
    /// File offset of the record.
    pub pointer_to_raw_data: u32,
}

/// The kinds of record that are told apart.
#[derive(Clone, Copy, Debug, PartialEq, Eq, Structural)]
pub enum DebugKind {
    CodeView,
    VcFeature,
    Pogo,
    Repro,
    Other,
}

/// A CodeView record: which PDB belongs to the image.
#[derive(Clone, Copy, Debug, PartialEq, Eq)]
pub struct CodeView<'a> {
    /// The sixteen bytes of the PDB's GUID.
    pub guid: &'a [u8],
    pub age: u32,
    /// The path of the PDB, without its terminator.
    pub pdb_path: &'a [u8],
}

/// The entry that the twenty-eight bytes at `o` hold.
pub open spec fn debug_entry_at(data: Seq<u8>, o: int) -> DebugEntry {
    DebugEntry {
        characteristics: le_u32(data, o) as u32,
        time_date_stamp: le_u32(data, o + 4) as u32,
        major_version: le_u16(data, o + 8) as u16,
        minor_version: le_u16(data, o + 10) as u16,
        kind: le_u32(data, o + 12) as u32,
        size_of_data: le_u32(data, o + 16) as u32,
        address_of_raw_data: le_u32(data, o + 20) as u32,
        pointer_to_raw_data: le_u32(data, o + 24) as u32,
    }
}

impl DebugEntry {
    /// The kind of record that the entry describes, by its type.
    pub open spec fn spec_classify(&self) -> DebugKind {
        if self.kind == DEBUG_CODEVIEW {
            DebugKind::CodeView
        } else if self.kind == DEBUG_VC_FEATURE {
            DebugKind::VcFeature
        } else if self.kind == DEBUG_POGO {
            DebugKind::Pogo
        } else if self.kind == DEBUG_REPRO {
            DebugKind::Repro
        } else {
            DebugKind::Other
        }
    }

    /// Tells what kind of record the entry describes.
    pub fn classify(&self) -> (r: DebugKind)
        ensures
            r == self.spec_classify(),
    {
        if self.kind == DEBUG_CODEVIEW {
            DebugKind::CodeView
        } else if self.kind == DEBUG_VC_FEATURE {
            DebugKind::VcFeature
        } else if self.kind == DEBUG_POGO {
            DebugKind::Pogo
        } else if self.kind == DEBUG_REPRO {
            DebugKind::Repro
        } else {
            DebugKind::Other
        }
    }

    /// The bytes of the record, found by its RVA.
    pub fn record<'a>(&self, image: &Image<'a>) -> (r: Result<&'a [u8], Error>)
        requires
            image.wf(),
        ensures
            match r {
                Ok(bytes) => image.spec_slice(self.address_of_raw_data, self.size_of_data as usize)
                    matches Ok(o) && bytes@ == image.data@.subrange(
                    o as int,
                    o + self.size_of_data,
                ),
                Err(e) => image.spec_slice(self.address_of_raw_data, self.size_of_data as usize)
                    == Err::<usize, Error>(e),
            },
    {
        image.derva_bytes(self.address_of_raw_data, self.size_of_data as usize)
    }
}

/// Whether `record` is a CodeView record that names a PDB: it begins with `RSDS`, and the
/// path that follows the GUID and the age ends within it.
pub open spec fn is_code_view(record: Seq<u8>) -> bool {
    &&& record.len() >= 25
    &&& le_u32(record, 0) == RSDS
    &&& nul_pos(record, 24, record.len() as int) < record.len()
}

/// Reads a CodeView record; `Invalid` where the bytes are not one.
pub fn code_view<'a>(record: &'a [u8]) -> (r: Result<CodeView<'a>, Error>)
    ensures
        match r {
            Ok(cv) => {
                &&& is_code_view(record@)
                &&& cv.guid@ == record@.subrange(4, 20)
                &&& cv.age == le_u32(record@, 20)
                &&& cv.pdb_path@ == record@.subrange(
                    24,
                    nul_pos(record@, 24, record@.len() as int),
                )
            },
            Err(e) => e == Error::Invalid && !is_code_view(record@),
        },
{
    let len: usize = record.len();
    if len < 25 || read_u32(record, 0) != RSDS {
        return Err(Error::Invalid);
    }
    let end: usize = find_nul(record, 24, len);
    if end >= len {
        return Err(Error::Invalid);
    }
    Ok(
        CodeView {
            guid: vstd::slice::slice_subrange(record, 4, 20),
            age: read_u32(record, 20),
            pdb_path: vstd::slice::slice_subrange(record, 24, end),
        },
    )
}

impl<'a> Image<'a> {
    /// The entries of the debug directory: as many as fill it, twenty-eight bytes each.
    pub open spec fn spec_debug(&self) -> Result<Seq<DebugEntry>, Error> {
        let dir = self.headers.data_directories@[DIR_DEBUG as int];
        let count = dir.size / 28;
        if dir.rva == 0 {
            Err(Error::Null)
        } else if count == 0 {
            Ok(Seq::empty())
        } else {
            match self.spec_slice(dir.rva, (28 * count) as usize) {
                Err(e) => Err(e),
                Ok(o) => Ok(Seq::new(count as nat, |i: int| debug_entry_at(self.data@, o + 28 * i))),
            }
        }
    }

    /// Reads the debug directory.
    pub fn debug(&self) -> (r: Result<Vec<DebugEntry>, Error>)
        requires
            self.wf(),
        ensures
            match r {
                Ok(v) => self.spec_debug() == Ok::<Seq<DebugEntry>, Error>(v@),
                Err(e) => self.spec_debug() == Err::<Seq<DebugEntry>, Error>(e),
            },
    {
        let dir = self.directory(DIR_DEBUG);
        if dir.rva == 0 {
            return Err(Error::Null);
        }
        let count: usize = (dir.size / 28) as usize;
        let mut out: Vec<DebugEntry> = Vec::new();
        if count == 0 {
            assert(out@ =~= Seq::<DebugEntry>::empty());
            return Ok(out);
        }
        let o = match self.slice_at(dir.rva, 28 * count) {
            Ok(o) => o,
            Err(e) => {
                return Err(e);
            },
        };
        let mut i: usize = 0;
        while i < count
            invariant
                i <= count,
                o + 28 * count <= self.data.len(),
                out@.len() == i,
                forall|k: int| 0 <= k < i ==> out@[k] == debug_entry_at(self.data@, o + 28 * k),
            decreases count - i,
        {
            let at: usize = o + 28 * i;
            out.push(
                DebugEntry {
                    characteristics: read_u32(self.data, at),
                    time_date_stamp: read_u32(self.data, at + 4),
                    major_version: read_u16(self.data, at + 8),
                    minor_version: read_u16(self.data, at + 10),
                    kind: read_u32(self.data, at + 12),
                    size_of_data: read_u32(self.data, at + 16),
                    address_of_raw_data: read_u32(self.data, at + 20),
                    pointer_to_raw_data: read_u32(self.data, at + 24),
                },
            );
            i = i + 1;
        }
        assert(out@ =~= Seq::new(count as nat, |i: int| debug_entry_at(self.data@, o + 28 * i)));
        Ok(out)
    }
}

} // verus!
