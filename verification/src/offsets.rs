use vstd::prelude::*;
use crate::error::Error;
use crate::image::{Image, Kind, SectionHeader};

verus! {

impl SectionHeader {
    /// Whether the file offset `offset` lies among the section's raw bytes.
    pub open spec fn spec_holds_offset(&self, offset: int) -> bool {
        self.pointer_to_raw_data <= offset < self.pointer_to_raw_data + self.size_of_raw_data
    }

    /// Tells whether the file offset lies among the section's raw bytes.
    pub fn holds_offset(&self, offset: usize) -> (r: bool)
        ensures
            r == self.spec_holds_offset(offset as int),
    {
        let start: usize = self.pointer_to_raw_data as usize;
        let size: usize = self.size_of_raw_data as usize;
        start <= offset && offset - start < size
    }
}

/// The first section from `from` on whose raw bytes hold the file offset.
pub open spec fn find_raw_from(sections: Seq<SectionHeader>, offset: int, from: int) -> Option<int>
    decreases sections.len() - from,
{
    if from < 0 || from >= sections.len() {
        None
    } else if sections[from].spec_holds_offset(offset) {
        Some(from)
    } else {
        find_raw_from(sections, offset, from + 1)
    }
}

/// What `find_raw_from` finds is the first section at or after `from` that holds the offset.
pub proof fn lemma_find_raw(sections: Seq<SectionHeader>, offset: int, from: int)
    requires
        0 <= from,
    ensures
        match find_raw_from(sections, offset, from) {
            Some(i) => from <= i < sections.len() && sections[i].spec_holds_offset(offset)
                && forall|k: int|
                from <= k < i ==> !(#[trigger] sections[k]).spec_holds_offset(offset),
            None => forall|k: int|
                from <= k < sections.len() ==> !(#[trigger] sections[k]).spec_holds_offset(offset),
        },
    decreases sections.len() - from,
{
    if from < sections.len() && !sections[from].spec_holds_offset(offset) {
        lemma_find_raw(sections, offset, from + 1);
    }
}

impl<'a> Image<'a> {
    /// The file offset of an RVA.
    ///
    /// A module view maps every address to itself. In a file view zero is refused, an address
    /// inside a section maps into the section's raw bytes and is refused if it lies past them,
    /// and any other address maps to itself if it lies within the headers.
    pub open spec fn spec_rva_to_file_offset(&self, rva: u32) -> Result<usize, Error> {
        if self.kind == Kind::Module {
            Ok(rva as usize)
        } else if rva == 0 {
            Err(Error::Null)
        } else {
            match self.spec_find_section(rva as int) {
                Some(i) => {
                    let s = self.sections()[i];
                    if rva - s.virtual_address < s.size_of_raw_data {
                        Ok((s.pointer_to_raw_data + (rva - s.virtual_address)) as usize)
                    } else {
                        Err(Error::Bounds)
                    }
                },
                None => if rva < self.headers.size_of_headers {
                    Ok(rva as usize)
                } else {
                    Err(Error::Bounds)
                },
            }
        }
    }

    /// The RVA of a file offset: the reverse of `spec_rva_to_file_offset`.
    pub open spec fn spec_file_offset_to_rva(&self, offset: usize) -> Result<u32, Error> {
        if self.kind == Kind::Module {
            if offset <= u32::MAX {
                Ok(offset as u32)
            } else {
                Err(Error::Bounds)
            }
        } else {
            match find_raw_from(self.sections(), offset as int, 0) {
                Some(i) => {
                    let s = self.sections()[i];
                    Ok((s.virtual_address + (offset - s.pointer_to_raw_data)) as u32)
                },
                None => if offset < self.headers.size_of_headers {
                    Ok(offset as u32)
                } else {
                    Err(Error::Bounds)
                },
            }
        }
    }

    /// No two sections share a byte of the file.
    pub open spec fn raw_ranges_disjoint(&self) -> bool {
        forall|i: int, j: int, offset: int|
            0 <= i < self.sections().len() && 0 <= j < self.sections().len() && i != j && (
            #[trigger] self.sections()[i].spec_holds_offset(offset)) ==> !(
            #[trigger] self.sections()[j].spec_holds_offset(offset))
    }

    /// Converts an RVA to the offset of its byte in the file.
    pub fn rva_to_file_offset(&self, rva: u32) -> (r: Result<usize, Error>)
        requires
            self.wf(),
        ensures
            r == self.spec_rva_to_file_offset(rva),
    {
        if let Kind::Module = self.kind {
            return Ok(rva as usize);
        }
        if rva == 0 {
            return Err(Error::Null);
        }
        match self.find_section(rva) {
            Some(i) => {
                let s = &self.headers.sections[i];
                let len: usize = self.data.len();
                proof {
                    self.lemma_section_ok(i as int);
                }
                let off: u32 = rva - s.virtual_address;
                if off < s.size_of_raw_data {
                    Ok(s.pointer_to_raw_data as usize + off as usize)
                } else {
                    Err(Error::Bounds)
                }
            },
            None => if rva < self.headers.size_of_headers {
                Ok(rva as usize)
            } else {
                Err(Error::Bounds)
            },
        }
    }

    /// Converts a file offset to the RVA whose byte lies there.
    pub fn file_offset_to_rva(&self, offset: usize) -> (r: Result<u32, Error>)
        requires
            self.wf(),
        ensures
            r == self.spec_file_offset_to_rva(offset),
    {
        if let Kind::Module = self.kind {
            return if offset <= u32::MAX as usize {
                Ok(offset as u32)
            } else {
                Err(Error::Bounds)
            };
        }
        let n: usize = self.headers.sections.len();
        let mut i: usize = 0;
        while i < n
            invariant
                i <= n,
                n == self.sections().len(),
                self.wf(),
                self.kind == Kind::File,
                find_raw_from(self.sections(), offset as int, 0) == find_raw_from(
                    self.sections(),
                    offset as int,
                    i as int,
                ),
            decreases n - i,
        {
            let s = &self.headers.sections[i];
            if s.holds_offset(offset) {
                proof {
                    self.lemma_section_ok(i as int);
                }
                let within: u32 = (offset - s.pointer_to_raw_data as usize) as u32;
                return Ok(s.virtual_address + within);
            }
            i = i + 1;
        }
        if offset < self.headers.size_of_headers as usize {
            Ok(offset as u32)
        } else {
            Err(Error::Bounds)
        }
    }

    /// An RVA inside a section, converted to a file offset and back, is the same RVA,
    /// wherever the first section whose raw bytes hold that offset is the section of the
    /// RVA.
    pub proof fn lemma_offset_round_trip(&self, rva: u32)
        requires
            self.wf(),
            self.spec_find_section(rva as int) is Some,
            self.spec_rva_to_file_offset(rva) is Ok,
            self.kind == Kind::File ==> find_raw_from(
                self.sections(),
                self.spec_rva_to_file_offset(rva)->Ok_0 as int,
                0,
            ) == self.spec_find_section(rva as int),
        ensures
            self.spec_file_offset_to_rva(self.spec_rva_to_file_offset(rva)->Ok_0) == Ok::<
                u32,
                Error,
            >(rva),
    {
        if self.kind == Kind::File {
            let i = self.spec_find_section(rva as int)->Some_0;
            crate::image::lemma_find_section(self.sections(), rva as int, 0);
            self.lemma_section_ok(i);
            assert(self.data.len() == self.data@.len());
        }
    }

    /// In a view whose sections share no byte of the file, the first section whose raw
    /// bytes hold the file offset of an RVA is the section of that RVA, so that the RVA
    /// comes back from its file offset.
    pub proof fn lemma_offset_round_trip_disjoint(&self, rva: u32)
        requires
            self.wf(),
            self.raw_ranges_disjoint(),
            self.spec_find_section(rva as int) is Some,
            self.spec_rva_to_file_offset(rva) is Ok,
        ensures
            self.spec_file_offset_to_rva(self.spec_rva_to_file_offset(rva)->Ok_0) == Ok::<
                u32,
                Error,
            >(rva),
    {
        if self.kind == Kind::File {
            let i = self.spec_find_section(rva as int)->Some_0;
            crate::image::lemma_find_section(self.sections(), rva as int, 0);
            self.lemma_section_ok(i);
            let s = self.sections()[i];
            let offset = self.spec_rva_to_file_offset(rva)->Ok_0;
            assert(self.data.len() == self.data@.len());
            assert(s.spec_holds_offset(offset as int));
            lemma_find_raw(self.sections(), offset as int, 0);
            let j = find_raw_from(self.sections(), offset as int, 0)->Some_0;
            assert(self.sections()[j].spec_holds_offset(offset as int));
            assert(i == j);
        }
        self.lemma_offset_round_trip(rva);
    }
}

} // verus!
