use vstd::prelude::*;
use crate::bytes::{le_u16, le_u32, le_u64, read_u16, read_u32, read_u64};
use crate::error::Error;

verus! {

/// How the bytes of a view are laid out.
#[derive(Clone, Copy, Debug, PartialEq, Eq, Structural)]
pub enum Kind {
    /// As on disk: each section's bytes lie at its raw pointer.
    File,
    /// As loaded: each section's bytes lie at its virtual address.
    Module,
}

/// Which optional header the image carries.
#[derive(Clone, Copy, Debug, PartialEq, Eq, Structural)]
pub enum Bitness {
    Pe32,
    Pe64,
}

/// One of the sixteen data directory entries; absent when `rva` is zero.
#[derive(Clone, Copy, Debug, PartialEq, Eq, Structural)]
pub struct DataDirectory {
    pub rva: u32,
    pub size: u32,
}

/// One entry of the section table.
#[derive(Clone, Copy, Debug, PartialEq, Eq)]
pub struct SectionHeader {
    pub name: [u8; 8],
    pub virtual_size: u32,
    pub virtual_address: u32,
    pub size_of_raw_data: u32,
    pub pointer_to_raw_data: u32,
    pub pointer_to_relocations: u32,
    pub pointer_to_linenumbers: u32,
    pub number_of_relocations: u16,
    pub number_of_linenumbers: u16,
    pub characteristics: u32,
}

/// The first two bytes of an image: `MZ`.
pub const DOS_MAGIC: u16 = 0x5A4D;

/// The four bytes that begin the NT headers: `PE\0\0`.
pub const NT_SIGNATURE: u32 = 0x0000_4550;

/// The magic number of the optional header of a 32-bit image.
pub const PE32_MAGIC: u16 = 0x010B;

/// The magic number of the optional header of a 64-bit image.
pub const PE64_MAGIC: u16 = 0x020B;

/// Index of the export directory among the data directories.
pub const DIR_EXPORT: usize = 0;

/// Index of the import directory.
pub const DIR_IMPORT: usize = 1;

/// Index of the resource directory.
pub const DIR_RESOURCE: usize = 2;

/// Index of the exception directory.
pub const DIR_EXCEPTION: usize = 3;

/// Index of the certificate table.
pub const DIR_SECURITY: usize = 4;

/// Index of the base relocation directory.
pub const DIR_BASERELOC: usize = 5;

/// Index of the debug directory.
pub const DIR_DEBUG: usize = 6;

/// Index of the thread local storage directory.
pub const DIR_TLS: usize = 9;

/// Index of the load configuration directory.
pub const DIR_LOAD_CONFIG: usize = 10;

/// Index of the import address table directory.
pub const DIR_IAT: usize = 12;

/// Index of the delay-load import directory.
pub const DIR_DELAY_IMPORT: usize = 13;

/// Characteristics bit of a section whose bytes may run as code.
pub const SCN_MEM_EXECUTE: u32 = 0x2000_0000;

impl SectionHeader {
    /// The bytes the section spans in virtual space: the larger of its two sizes.
    pub open spec fn spec_extent(&self) -> int {
        if self.virtual_size >= self.size_of_raw_data {
            self.virtual_size as int
        } else {
            self.size_of_raw_data as int
        }
    }

    /// Whether `rva` lies in the section's virtual range.
    pub open spec fn spec_contains(&self, rva: int) -> bool {
        self.virtual_address <= rva < self.virtual_address + self.spec_extent()
    }

    /// Whether the bytes of the section may run as code.
    pub open spec fn spec_is_executable(&self) -> bool {
        self.characteristics & SCN_MEM_EXECUTE != 0
    }

    /// This header is what the forty bytes of `data` at `off` say.
    pub open spec fn decodes(&self, data: Seq<u8>, off: int) -> bool {
        &&& self.name@ == data.subrange(off, off + 8)
        &&& self.virtual_size == le_u32(data, off + 8)
        &&& self.virtual_address == le_u32(data, off + 12)
        &&& self.size_of_raw_data == le_u32(data, off + 16)
        &&& self.pointer_to_raw_data == le_u32(data, off + 20)
        &&& self.pointer_to_relocations == le_u32(data, off + 24)
        &&& self.pointer_to_linenumbers == le_u32(data, off + 28)
        &&& self.number_of_relocations == le_u16(data, off + 32)
        &&& self.number_of_linenumbers == le_u16(data, off + 34)
        &&& self.characteristics == le_u32(data, off + 36)
    }

    /// The bytes the section spans in virtual space.
    pub fn extent(&self) -> (r: u32)
        ensures
            r == self.spec_extent(),
    {
        if self.virtual_size >= self.size_of_raw_data {
            self.virtual_size
        } else {
            self.size_of_raw_data
        }
    }

    /// Tells whether `rva` lies in the section's virtual range.
    pub fn contains(&self, rva: u32) -> (r: bool)
        ensures
            r == self.spec_contains(rva as int),
    {
        self.virtual_address <= rva && rva - self.virtual_address < self.extent()
    }

    /// Tells whether the bytes of the section may run as code.
    #[verifier::when_used_as_spec(spec_is_executable)]
    pub fn is_executable(&self) -> (r: bool)
        ensures
            r == self.spec_is_executable(),
    {
        self.characteristics & SCN_MEM_EXECUTE != 0
    }

    /// Reads the section header at `off`.
    pub fn read(data: &[u8], off: usize) -> (r: SectionHeader)
        requires
            off + 40 <= data.len(),
        ensures
            r.decodes(data@, off as int),
    {
        let name: [u8; 8] = [
            data[off],
            data[off + 1],
            data[off + 2],
            data[off + 3],
            data[off + 4],
            data[off + 5],
            data[off + 6],
            data[off + 7],
        ];
        assert(name@ =~= data@.subrange(off as int, off + 8));
        SectionHeader {
            name,
            virtual_size: read_u32(data, off + 8),
            virtual_address: read_u32(data, off + 12),
            size_of_raw_data: read_u32(data, off + 16),
            pointer_to_raw_data: read_u32(data, off + 20),
            pointer_to_relocations: read_u32(data, off + 24),
            pointer_to_linenumbers: read_u32(data, off + 28),
            number_of_relocations: read_u16(data, off + 32),
            number_of_linenumbers: read_u16(data, off + 34),
            characteristics: read_u32(data, off + 36),
        }
    }
}

/// The headers of an image, decoded.
#[derive(Clone, Debug, PartialEq, Eq)]
pub struct Headers {
    /// File offset of the NT headers.
    pub e_lfanew: u32,
    pub machine: u16,
    pub number_of_sections: u16,
    pub time_date_stamp: u32,
    pub size_of_optional_header: u16,
    pub characteristics: u16,
    pub bitness: Bitness,
    pub address_of_entry_point: u32,
    pub image_base: u64,
    pub section_alignment: u32,
    pub file_alignment: u32,
    pub size_of_image: u32,
    pub size_of_headers: u32,
    pub check_sum: u32,
    pub subsystem: u16,
    pub dll_characteristics: u16,
    pub number_of_rva_and_sizes: u32,
    /// Always sixteen entries; those the image does not carry are zero.
    pub data_directories: Vec<DataDirectory>,
    pub sections: Vec<SectionHeader>,
}

/// Offset of the optional header, given that of the NT headers.
pub open spec fn optional_offset(data: Seq<u8>) -> int {
    le_u32(data, 0x3C) + 24
}

/// Which optional header the magic number announces.
pub open spec fn spec_bitness(data: Seq<u8>) -> Option<Bitness> {
    let magic = le_u16(data, optional_offset(data));
    if magic == PE32_MAGIC {
        Some(Bitness::Pe32)
    } else if magic == PE64_MAGIC {
        Some(Bitness::Pe64)
    } else {
        None
    }
}

/// Size of the optional header up to its data directories.
pub open spec fn fixed_part(bitness: Bitness) -> int {
    match bitness {
        Bitness::Pe32 => 96,
        Bitness::Pe64 => 112,
    }
}

/// How many data directory entries the optional header carries, sixteen at most.
pub open spec fn directory_count(data: Seq<u8>, bitness: Bitness) -> int {
    let n = le_u32(data, optional_offset(data) + fixed_part(bitness) - 4);
    if n > 16 {
        16
    } else {
        n
    }
}

/// Offset of the section table.
pub open spec fn section_table_offset(data: Seq<u8>) -> int {
    optional_offset(data) + le_u16(data, le_u32(data, 0x3C) + 20)
}

/// Why `data` does not begin with the headers of an image, if it does not.
///
/// The checks run in this order: the DOS header and its magic, the place and
/// signature of the NT headers, the optional header's extent and magic, its
/// directory table, and the extent of the section table.
pub open spec fn header_error(data: Seq<u8>) -> Option<Error> {
    let nt = le_u32(data, 0x3C);
    let opt = nt + 24;
    let opt_size = le_u16(data, nt + 20);
    if data.len() < 64 {
        Some(Error::Bounds)
    } else if le_u16(data, 0) != DOS_MAGIC {
        Some(Error::BadMagic)
    } else if nt + 24 > data.len() {
        Some(Error::Bounds)
    } else if le_u32(data, nt) != NT_SIGNATURE {
        Some(Error::BadMagic)
    } else if opt + opt_size > data.len() {
        Some(Error::Bounds)
    } else if opt_size < 2 {
        Some(Error::BadMagic)
    } else {
        match spec_bitness(data) {
            None => Some(Error::BadMagic),
            Some(bitness) => {
                if opt_size < fixed_part(bitness) {
                    Some(Error::Invalid)
                } else if fixed_part(bitness) + 8 * directory_count(data, bitness) > opt_size {
                    Some(Error::Invalid)
                } else if opt + opt_size + 40 * le_u16(data, nt + 6) > data.len() {
                    Some(Error::Bounds)
                } else {
                    None
                }
            },
        }
    }
}

impl Headers {
    /// These headers are what `data` says, field by field.
    pub open spec fn decodes(&self, data: Seq<u8>) -> bool {
        let nt = le_u32(data, 0x3C);
        let opt = nt + 24;
        let wide = self.bitness == Bitness::Pe64;
        &&& self.e_lfanew == nt
        &&& self.machine == le_u16(data, nt + 4)
        &&& self.number_of_sections == le_u16(data, nt + 6)
        &&& self.time_date_stamp == le_u32(data, nt + 8)
        &&& self.size_of_optional_header == le_u16(data, nt + 20)
        &&& self.characteristics == le_u16(data, nt + 22)
        &&& spec_bitness(data) == Some(self.bitness)
        &&& self.address_of_entry_point == le_u32(data, opt + 16)
        &&& self.image_base == if wide {
            le_u64(data, opt + 24)
        } else {
            le_u32(data, opt + 28)
        }
        &&& self.section_alignment == le_u32(data, opt + 32)
        &&& self.file_alignment == le_u32(data, opt + 36)
        &&& self.size_of_image == le_u32(data, opt + 56)
        &&& self.size_of_headers == le_u32(data, opt + 60)
        &&& self.check_sum == le_u32(data, opt + 64)
        &&& self.subsystem == le_u16(data, opt + 68)
        &&& self.dll_characteristics == le_u16(data, opt + 70)
        &&& self.number_of_rva_and_sizes == le_u32(data, opt + fixed_part(self.bitness) - 4)
        &&& self.data_directories@.len() == 16
        &&& forall|i: int|
            0 <= i < 16 ==> #[trigger] self.data_directories@[i] == spec_directory(
                data,
                self.bitness,
                i,
            )
        &&& self.sections@.len() == self.number_of_sections
        &&& forall|i: int|
            0 <= i < self.sections@.len() ==> (#[trigger] self.sections@[i]).decodes(
                data,
                section_table_offset(data) + 40 * i,
            )
    }

    /// Decodes the headers at the start of `data`, or says why they are not those of an image.
    pub fn parse(data: &[u8]) -> (r: Result<Headers, Error>)
        ensures
            match r {
                Ok(h) => header_error(data@) is None && h.decodes(data@),
                Err(e) => header_error(data@) == Some(e),
            },
    {
        let len = data.len();
        if len < 64 {
            return Err(Error::Bounds);
        }
        if read_u16(data, 0) != DOS_MAGIC {
            return Err(Error::BadMagic);
        }
        let e_lfanew: u32 = read_u32(data, 0x3C);
        let nt: usize = e_lfanew as usize;
        if nt > len || len - nt < 24 {
            return Err(Error::Bounds);
        }
        if read_u32(data, nt) != NT_SIGNATURE {
            return Err(Error::BadMagic);
        }
        let opt: usize = nt + 24;
        let size_of_optional_header: u16 = read_u16(data, nt + 20);
        let opt_size: usize = size_of_optional_header as usize;
        if len - opt < opt_size {
            return Err(Error::Bounds);
        }
        if opt_size < 2 {
            return Err(Error::BadMagic);
        }
        let magic: u16 = read_u16(data, opt);
        let bitness = if magic == PE32_MAGIC {
            Bitness::Pe32
        } else if magic == PE64_MAGIC {
            Bitness::Pe64
        } else {
            return Err(Error::BadMagic);
        };
        let fixed: usize = match bitness {
            Bitness::Pe32 => 96,
            Bitness::Pe64 => 112,
        };
        if opt_size < fixed {
            return Err(Error::Invalid);
        }
        let number_of_rva_and_sizes: u32 = read_u32(data, opt + fixed - 4);
        let count: usize = if number_of_rva_and_sizes > 16 {
            16
        } else {
            number_of_rva_and_sizes as usize
        };
        if fixed + 8 * count > opt_size {
            return Err(Error::Invalid);
        }
        let number_of_sections: u16 = read_u16(data, nt + 6);
        let table: usize = opt + opt_size;
        if (len - table) / 40 < number_of_sections as usize {
            return Err(Error::Bounds);
        }
        let image_base: u64 = match bitness {
            Bitness::Pe32 => read_u32(data, opt + 28) as u64,
            Bitness::Pe64 => read_u64(data, opt + 24),
        };
        let mut data_directories: Vec<DataDirectory> = Vec::new();
        let mut i: usize = 0;
        while i < 16
            invariant
                i <= 16,
                count <= 16,
                opt + fixed + 8 * count <= len,
                len == data.len(),
                count as int == directory_count(data@, bitness),
                opt as int == optional_offset(data@),
                fixed as int == fixed_part(bitness),
                data_directories@.len() == i,
                forall|k: int|
                    0 <= k < i ==> #[trigger] data_directories@[k] == spec_directory(
                        data@,
                        bitness,
                        k,
                    ),
            decreases 16 - i,
        {
            let entry = if i < count {
                DataDirectory {
                    rva: read_u32(data, opt + fixed + 8 * i),
                    size: read_u32(data, opt + fixed + 8 * i + 4),
                }
            } else {
                DataDirectory { rva: 0, size: 0 }
            };
            data_directories.push(entry);
            i = i + 1;
        }
        let mut sections: Vec<SectionHeader> = Vec::new();
        let mut j: usize = 0;
        while j < number_of_sections as usize
            invariant
                j <= number_of_sections,
                table + 40 * number_of_sections <= len,
                len == data.len(),
                table as int == section_table_offset(data@),
                sections@.len() == j,
                forall|k: int|
                    0 <= k < j ==> (#[trigger] sections@[k]).decodes(data@, table + 40 * k),
            decreases number_of_sections - j,
        {
            sections.push(SectionHeader::read(data, table + 40 * j));
            j = j + 1;
        }
        Ok(
            Headers {
                e_lfanew,
                machine: read_u16(data, nt + 4),
                number_of_sections,
                time_date_stamp: read_u32(data, nt + 8),
                size_of_optional_header,
                characteristics: read_u16(data, nt + 22),
                bitness,
                address_of_entry_point: read_u32(data, opt + 16),
                image_base,
                section_alignment: read_u32(data, opt + 32),
                file_alignment: read_u32(data, opt + 36),
                size_of_image: read_u32(data, opt + 56),
                size_of_headers: read_u32(data, opt + 60),
                check_sum: read_u32(data, opt + 64),
                subsystem: read_u16(data, opt + 68),
                dll_characteristics: read_u16(data, opt + 70),
                number_of_rva_and_sizes,
                data_directories,
                sections,
            },
        )
    }
}

/// The `i`-th data directory entry: what the optional header holds, or zeros past its count.
pub open spec fn spec_directory(data: Seq<u8>, bitness: Bitness, i: int) -> DataDirectory {
    let at = optional_offset(data) + fixed_part(bitness) + 8 * i;
    if i < directory_count(data, bitness) {
        DataDirectory { rva: le_u32(data, at) as u32, size: le_u32(data, at + 4) as u32 }
    } else {
        DataDirectory { rva: 0, size: 0 }
    }
}

/// `x` rounded up to a multiple of `a`; an alignment of zero or one leaves it as it is.
pub open spec fn align_up(x: int, a: int) -> int {
    if a <= 1 {
        x
    } else {
        ((x + a - 1) / a) * a
    }
}

/// Rounding up never goes down, and goes up by less than the alignment.
pub proof fn lemma_align_up(x: int, a: int)
    requires
        0 <= x,
    ensures
        x <= align_up(x, a),
        a > 1 ==> align_up(x, a) < x + a,
        a > 1 ==> align_up(x, a) % a == 0,
{
    if a > 1 {
        let y = x + a - 1;
        assert(y == a * (y / a) + y % a && 0 <= y % a < a) by (nonlinear_arith)
            requires
                a > 1,
        ;
        assert((y / a) * a == a * (y / a)) by (nonlinear_arith);
        assert(((y / a) * a) % a == 0) by (nonlinear_arith)
            requires
                a > 1,
        ;
    }
}

/// Offset in `data` of the `i`-th entry of the section table.
pub open spec fn table_entry(data: Seq<u8>, i: int) -> int {
    section_table_offset(data) + 40 * i
}

/// Where the `i`-th section ends in virtual space, as the table in `data` states it.
pub open spec fn table_end(data: Seq<u8>, i: int) -> int {
    let at = table_entry(data, i);
    let virtual_size = le_u32(data, at + 8);
    let raw_size = le_u32(data, at + 16);
    le_u32(data, at + 12) + if virtual_size >= raw_size {
        virtual_size
    } else {
        raw_size
    }
}

/// What is wrong with the `i`-th section of the table, if anything.
///
/// A section must end within the 32-bit address space, begin no earlier than
/// the aligned end of the section before it, and lie within the buffer (its
/// raw bytes, in a file view) or within the size of the image (its virtual
/// range, in a module view).
pub open spec fn section_error(kind: Kind, data: Seq<u8>, i: int) -> Option<Error> {
    let at = table_entry(data, i);
    let alignment = le_u32(data, optional_offset(data) + 32);
    let size_of_image = le_u32(data, optional_offset(data) + 56);
    if table_end(data, i) > u32::MAX {
        Some(Error::Overflow)
    } else if i > 0 && le_u32(data, at + 12) < align_up(table_end(data, i - 1), alignment) {
        Some(Error::Invalid)
    } else if kind == Kind::File && le_u32(data, at + 20) + le_u32(data, at + 16) > data.len() {
        Some(Error::Bounds)
    } else if kind == Kind::Module && table_end(data, i) > size_of_image {
        Some(Error::Bounds)
    } else {
        None
    }
}

/// The first fault among the sections from `from` on, in table order.
pub open spec fn layout_error(kind: Kind, data: Seq<u8>, from: int) -> Option<Error>
    decreases le_u16(data, le_u32(data, 0x3C) + 6) - from,
{
    if from >= le_u16(data, le_u32(data, 0x3C) + 6) {
        None
    } else if section_error(kind, data, from) is Some {
        section_error(kind, data, from)
    } else {
        layout_error(kind, data, from + 1)
    }
}

/// Why `data` is not an image of the given kind, if it is not.
pub open spec fn open_error(kind: Kind, data: Seq<u8>) -> Option<Error> {
    if header_error(data) is Some {
        header_error(data)
    } else {
        layout_error(kind, data, 0)
    }
}

/// Where an RVA lies in the buffer of a view.
#[derive(Clone, Copy, Debug, PartialEq, Eq, Structural)]
pub struct Place {
    /// Offset in the buffer of the byte the RVA names.
    pub offset: usize,
    /// How many bytes from there on the buffer holds for this region.
    pub readable: usize,
    /// How many bytes from there on the region spans in virtual space.
    pub extent: usize,
    /// Whether the region has any bytes in the buffer at all.
    pub backed: bool,
}

/// A validated view over the bytes of an image.
#[derive(Clone, Debug)]
pub struct Image<'a> {
    pub kind: Kind,
    pub headers: Headers,
    pub data: &'a [u8],
}

/// The first section from `from` on whose virtual range holds `rva`.
pub open spec fn find_section_from(sections: Seq<SectionHeader>, rva: int, from: int) -> Option<
    int,
>
    decreases sections.len() - from,
{
    if from < 0 || from >= sections.len() {
        None
    } else if sections[from].spec_contains(rva) {
        Some(from)
    } else {
        find_section_from(sections, rva, from + 1)
    }
}

/// What `find_section_from` finds is the first section at or after `from` that holds `rva`.
pub proof fn lemma_find_section(sections: Seq<SectionHeader>, rva: int, from: int)
    requires
        0 <= from,
    ensures
        match find_section_from(sections, rva, from) {
            Some(i) => from <= i < sections.len() && sections[i].spec_contains(rva) && forall|
                k: int,
            |
                from <= k < i ==> !(#[trigger] sections[k]).spec_contains(rva),
            None => forall|k: int|
                from <= k < sections.len() ==> !(#[trigger] sections[k]).spec_contains(rva),
        },
    decreases sections.len() - from,
{
    if from < sections.len() && !sections[from].spec_contains(rva) {
        lemma_find_section(sections, rva, from + 1);
    }
}

impl<'a> Image<'a> {
    /// The invariant of a view: its headers are those of its bytes, and its sections are laid
    /// out soundly for its kind.
    pub closed spec fn wf(&self) -> bool {
        &&& open_error(self.kind, self.data@) is None
        &&& self.headers.decodes(self.data@)
    }

    /// What the invariant says: the bytes pass every check, and the headers are their decoding.
    pub proof fn lemma_wf(&self)
        ensures
            self.wf() <==> open_error(self.kind, self.data@) is None && self.headers.decodes(
                self.data@,
            ),
    {
    }

    /// Whether two views show the same image: they are of one kind over equal bytes, and
    /// their headers say the same.
    pub open spec fn same_view(&self, other: &Image) -> bool {
        &&& self.kind == other.kind
        &&& self.data@ == other.data@
        &&& self.headers.sections@ == other.headers.sections@
        &&& self.headers.data_directories@ == other.headers.data_directories@
        &&& self.headers.bitness == other.headers.bitness
        &&& self.headers.image_base == other.headers.image_base
        &&& self.headers.size_of_image == other.headers.size_of_image
        &&& self.headers.size_of_headers == other.headers.size_of_headers
        &&& self.headers.e_lfanew == other.headers.e_lfanew
        &&& self.headers.machine == other.headers.machine
    }

    /// Two well-formed views of one kind over equal bytes show the same image.
    pub proof fn lemma_same_view(&self, other: &Image)
        requires
            self.wf(),
            other.wf(),
            self.kind == other.kind,
            self.data@ == other.data@,
        ensures
            self.same_view(other),
    {
        let data = self.data@;
        assert forall|i: int| 0 <= i < self.headers.sections@.len() implies (
        #[trigger] self.headers.sections@[i]) == other.headers.sections@[i] by {
            let s = self.headers.sections@[i];
            let t = other.headers.sections@[i];
            assert(s.decodes(data, table_entry(data, i)));
            assert(t.decodes(data, table_entry(data, i)));
            assert(s.name@ =~= t.name@);
            assert(s.name == t.name);
        }
        assert(self.headers.sections@ =~= other.headers.sections@);
        assert forall|i: int| 0 <= i < 16 implies (#[trigger] self.headers.data_directories@[i])
            == other.headers.data_directories@[i] by {
            assert(self.headers.data_directories@[i] == spec_directory(
                data,
                self.headers.bitness,
                i,
            ));
            assert(other.headers.data_directories@[i] == spec_directory(
                data,
                other.headers.bitness,
                i,
            ));
        }
        assert(self.headers.data_directories@ =~= other.headers.data_directories@);
    }

    /// The NT headers of a well-formed view lie within its buffer.
    pub proof fn lemma_headers_fit(&self)
        requires
            self.wf(),
        ensures
            self.headers.e_lfanew + 24 <= self.data@.len(),
            self.data@.len() >= 64,
    {
    }

    /// The data directory entry at `index`.
    pub fn directory(&self, index: usize) -> (r: DataDirectory)
        requires
            self.wf(),
            index < 16,
        ensures
            r == self.headers.data_directories@[index as int],
    {
        self.headers.data_directories[index]
    }

    /// The section table.
    pub open spec fn sections(&self) -> Seq<SectionHeader> {
        self.headers.sections@
    }

    /// The section whose virtual range holds `rva`, if any.
    pub open spec fn spec_find_section(&self, rva: int) -> Option<int> {
        find_section_from(self.sections(), rva, 0)
    }

    /// What the layout checks give for each section of a well-formed view.
    pub proof fn lemma_section_ok(&self, i: int)
        requires
            self.wf(),
            0 <= i < self.sections().len(),
        ensures
            self.sections()[i].virtual_address + self.sections()[i].spec_extent() <= u32::MAX,
            i > 0 ==> self.sections()[i - 1].virtual_address + self.sections()[i
                - 1].spec_extent() <= self.sections()[i].virtual_address,
            self.kind == Kind::File ==> self.sections()[i].pointer_to_raw_data
                + self.sections()[i].size_of_raw_data <= self.data@.len(),
            self.kind == Kind::Module ==> self.sections()[i].virtual_address
                + self.sections()[i].spec_extent() <= self.headers.size_of_image,
    {
        let data = self.data@;
        lemma_layout_none(self.kind, data, 0, i);
        let s = self.sections()[i];
        assert(s.decodes(data, table_entry(data, i)));
        assert(table_end(data, i) == s.virtual_address + s.spec_extent());
        if i > 0 {
            let p = self.sections()[i - 1];
            assert(p.decodes(data, table_entry(data, i - 1)));
            assert(table_end(data, i - 1) == p.virtual_address + p.spec_extent());
            lemma_align_up(table_end(data, i - 1), self.headers.section_alignment as int);
        }
    }

    /// No two sections of a well-formed view share an address: they ascend.
    pub proof fn lemma_sections_ascend(&self, i: int, j: int)
        requires
            self.wf(),
            0 <= i < j < self.sections().len(),
        ensures
            self.sections()[i].virtual_address + self.sections()[i].spec_extent()
                <= self.sections()[j].virtual_address,
        decreases j - i,
    {
        self.lemma_section_ok(j);
        if i < j - 1 {
            self.lemma_sections_ascend(i, j - 1);
        }
    }

    /// At most one section holds a given address.
    pub proof fn lemma_section_unique(&self, rva: int, i: int, j: int)
        requires
            self.wf(),
            0 <= i < self.sections().len(),
            0 <= j < self.sections().len(),
            self.sections()[i].spec_contains(rva),
            self.sections()[j].spec_contains(rva),
        ensures
            i == j,
    {
        if i < j {
            self.lemma_sections_ascend(i, j);
        } else if j < i {
            self.lemma_sections_ascend(j, i);
        }
    }

    /// Validates `data` as an image of the given kind.
    pub fn new(kind: Kind, data: &'a [u8]) -> (r: Result<Image<'a>, Error>)
        ensures
            match r {
                Ok(image) => image.wf() && image.kind == kind && image.data@ == data@,
                Err(e) => open_error(kind, data@) == Some(e),
            },
    {
        let headers = match Headers::parse(data) {
            Ok(h) => h,
            Err(e) => {
                return Err(e);
            },
        };
        let n: usize = headers.sections.len();
        let len: usize = data.len();
        let mut i: usize = 0;
        let mut floor: u64 = 0;
        while i < n
            invariant
                i <= n,
                n == headers.sections@.len(),
                len == data.len(),
                header_error(data@) is None,
                headers.decodes(data@),
                layout_error(kind, data@, 0) == layout_error(kind, data@, i as int),
                i > 0 ==> floor == align_up(
                    table_end(data@, i - 1),
                    headers.section_alignment as int,
                ),
            decreases n - i,
        {
            let s = &headers.sections[i];
            proof {
                assert(headers.sections@[i as int].decodes(data@, table_entry(data@, i as int)));
            }
            let end: u64 = s.virtual_address as u64 + s.extent() as u64;
            if end > u32::MAX as u64 {
                return Err(Error::Overflow);
            }
            if i > 0 && (s.virtual_address as u64) < floor {
                return Err(Error::Invalid);
            }
            match kind {
                Kind::File => {
                    if s.pointer_to_raw_data as u64 + s.size_of_raw_data as u64 > len as u64 {
                        return Err(Error::Bounds);
                    }
                },
                Kind::Module => {
                    if end > headers.size_of_image as u64 {
                        return Err(Error::Bounds);
                    }
                },
            }
            floor = round_up(end, headers.section_alignment);
            i = i + 1;
        }
        Ok(Image { kind, headers, data })
    }
}

/// `x` rounded up to a multiple of `a`.
pub fn round_up(x: u64, a: u32) -> (r: u64)
    requires
        x <= u32::MAX,
    ensures
        r == align_up(x as int, a as int),
{
    if a <= 1 {
        x
    } else {
        let y: u64 = x + (a as u64 - 1);
        let q: u64 = y / (a as u64);
        proof {
            assert(q * a <= y) by (nonlinear_arith)
                requires
                    q == y / (a as u64),
                    a > 1,
            ;
        }
        q * (a as u64)
    }
}

/// If no section from `from` on is at fault, none of them is.
pub proof fn lemma_layout_none(kind: Kind, data: Seq<u8>, from: int, i: int)
    requires
        layout_error(kind, data, from) is None,
        0 <= from <= i < le_u16(data, le_u32(data, 0x3C) + 6),
    ensures
        section_error(kind, data, i) is None,
    decreases i - from,
{
    if from < i {
        lemma_layout_none(kind, data, from + 1, i);
    }
}

} // verus!
