use vstd::prelude::*;
use crate::bytes::{find_nul, le_u16, le_u32, le_u64, nul_pos, read_u16, read_u32, read_u64};
use crate::error::Error;
use crate::image::{find_section_from, Bitness, Headers, Image, Kind, Place, SectionHeader};

verus! {

/// The most bytes a C string may span, its terminator included.
pub const C_STR_CAP: usize = 0x4000;

/// The lesser of two numbers.
pub open spec fn spec_min(a: int, b: int) -> int {
    if a <= b {
        a
    } else {
        b
    }
}

fn min_usize(a: usize, b: usize) -> (r: usize)
    ensures
        r == spec_min(a as int, b as int),
{
    if a <= b {
        a
    } else {
        b
    }
}

impl<'a> Image<'a> {
    /// The whole buffer under the view.
    pub fn image(&self) -> (r: &'a [u8])
        ensures
            r == self.data,
    {
        self.data
    }

    /// The headers of the image.
    pub fn headers(&self) -> (r: &Headers)
        ensures
            *r == self.headers,
    {
        &self.headers
    }

    /// The section table.
    pub fn section_headers(&self) -> (r: &Vec<SectionHeader>)
        ensures
            r@ == self.sections(),
    {
        &self.headers.sections
    }

    /// How far the identity-mapped region of the view reaches: the headers of a file view, the
    /// whole image of a module view, and never past the buffer.
    pub open spec fn spec_flat_limit(&self) -> int {
        match self.kind {
            Kind::File => spec_min(self.headers.size_of_headers as int, self.data@.len() as int),
            Kind::Module => spec_min(self.headers.size_of_image as int, self.data@.len() as int),
        }
    }

    /// Where `rva` lies in the buffer.
    ///
    /// In a file view an address inside a section lies at the section's raw pointer plus its
    /// offset into the section; any other address lies at itself if it is within the headers.
    /// In a module view every address lies at itself.
    pub open spec fn spec_locate(&self, rva: u32) -> Result<Place, Error> {
        let flat = if rva >= self.spec_flat_limit() {
            Err(Error::Bounds)
        } else {
            Ok(
                Place {
                    offset: rva as usize,
                    readable: (self.spec_flat_limit() - rva) as usize,
                    extent: (self.spec_flat_limit() - rva) as usize,
                    backed: true,
                },
            )
        };
        if rva == 0 {
            Err(Error::Null)
        } else if self.kind == Kind::Module {
            flat
        } else {
            match self.spec_find_section(rva as int) {
                Some(i) => {
                    let s = self.sections()[i];
                    let off = rva - s.virtual_address;
                    let within = spec_min(off, s.size_of_raw_data as int);
                    Ok(
                        Place {
                            offset: (s.pointer_to_raw_data + within) as usize,
                            readable: (s.size_of_raw_data - within) as usize,
                            extent: (s.spec_extent() - off) as usize,
                            backed: s.size_of_raw_data > 0,
                        },
                    )
                },
                None => flat,
            }
        }
    }

    /// Where the `n` bytes at `rva` begin in the buffer, or why they cannot be read.
    ///
    /// The faults, in the order in which they are looked for: `Null` for address zero;
    /// `Overflow` where the range does not end within the 32-bit address space; the fault
    /// of `spec_locate`; `Bounds` where the range runs past the end of its region;
    /// `ZeroFill` where it runs past the bytes that the region has in the buffer, as the
    /// tail of a section does whose virtual size exceeds its raw size; `Unmapped` in place
    /// of `ZeroFill` where the region has no bytes in the buffer at all.
    pub open spec fn spec_slice(&self, rva: u32, n: usize) -> Result<usize, Error> {
        if rva == 0 {
            Err(Error::Null)
        } else if rva + n > u32::MAX {
            Err(Error::Overflow)
        } else {
            match self.spec_locate(rva) {
                Err(e) => Err(e),
                Ok(p) => {
                    if n > p.extent {
                        Err(Error::Bounds)
                    } else if n > p.readable {
                        if p.backed {
                            Err(Error::ZeroFill)
                        } else {
                            Err(Error::Unmapped)
                        }
                    } else {
                        Ok(p.offset)
                    }
                },
            }
        }
    }

    /// Whatever range of bytes an address is resolved to lies inside the buffer of the view.
    pub proof fn lemma_slice_inside(&self, rva: u32, n: usize)
        requires
            self.wf(),
        ensures
            self.spec_slice(rva, n) matches Ok(offset) ==> offset + n <= self.data@.len(),
            self.spec_locate(rva) matches Ok(place) ==> place.offset + place.readable
                <= self.data@.len(),
    {
        assert(self.data.len() == self.data@.len());
        crate::image::lemma_find_section(self.sections(), rva as int, 0);
        if self.kind == Kind::File {
            if let Some(i) = self.spec_find_section(rva as int) {
                self.lemma_section_ok(i);
            }
        }
    }

    /// The index of the section that holds `rva`.
    pub fn find_section(&self, rva: u32) -> (r: Option<usize>)
        requires
            self.wf(),
        ensures
            match r {
                Some(i) => self.spec_find_section(rva as int) == Some(i as int) && i
                    < self.sections().len() && self.sections()[i as int].spec_contains(rva as int),
                None => self.spec_find_section(rva as int) is None,
            },
    {
        let n: usize = self.headers.sections.len();
        let mut i: usize = 0;
        while i < n
            invariant
                i <= n,
                n == self.sections().len(),
                self.spec_find_section(rva as int) == find_section_from(
                    self.sections(),
                    rva as int,
                    i as int,
                ),
            decreases n - i,
        {
            if self.headers.sections[i].contains(rva) {
                return Some(i);
            }
            i = i + 1;
        }
        None
    }

    fn flat_limit(&self) -> (r: usize)
        ensures
            r == self.spec_flat_limit(),
    {
        match self.kind {
            Kind::File => min_usize(self.headers.size_of_headers as usize, self.data.len()),
            Kind::Module => min_usize(self.headers.size_of_image as usize, self.data.len()),
        }
    }

    /// Finds where `rva` lies in the buffer.
    ///
    /// Every byte the place calls readable lies inside the buffer.
    pub fn locate(&self, rva: u32) -> (r: Result<Place, Error>)
        requires
            self.wf(),
        ensures
            r == self.spec_locate(rva),
            r matches Ok(p) ==> p.offset + p.readable <= self.data.len() && p.readable
                <= p.extent && p.extent <= u32::MAX,
    {
        if rva == 0 {
            return Err(Error::Null);
        }
        if let Kind::File = self.kind {
            if let Some(i) = self.find_section(rva) {
                let s = &self.headers.sections[i];
                let len: usize = self.data.len();
                proof {
                    self.lemma_section_ok(i as int);
                }
                assert(s.pointer_to_raw_data + s.size_of_raw_data <= len);
                let off: u32 = rva - s.virtual_address;
                let within: u32 = if off <= s.size_of_raw_data {
                    off
                } else {
                    s.size_of_raw_data
                };
                return Ok(
                    Place {
                        offset: s.pointer_to_raw_data as usize + within as usize,
                        readable: (s.size_of_raw_data - within) as usize,
                        extent: (s.extent() - off) as usize,
                        backed: s.size_of_raw_data > 0,
                    },
                );
            }
        }
        let limit: usize = self.flat_limit();
        if rva as usize >= limit {
            Err(Error::Bounds)
        } else {
            Ok(
                Place {
                    offset: rva as usize,
                    readable: limit - rva as usize,
                    extent: limit - rva as usize,
                    backed: true,
                },
            )
        }
    }

    /// Finds where the `n` bytes at `rva` begin in the buffer.
    ///
    /// Whatever range this grants lies inside the buffer.
    pub fn slice_at(&self, rva: u32, n: usize) -> (r: Result<usize, Error>)
        requires
            self.wf(),
        ensures
            r == self.spec_slice(rva, n),
            r matches Ok(offset) ==> offset + n <= self.data.len(),
    {
        if rva == 0 {
            return Err(Error::Null);
        }
        if n > (u32::MAX - rva) as usize {
            return Err(Error::Overflow);
        }
        let p = match self.locate(rva) {
            Ok(p) => p,
            Err(e) => {
                return Err(e);
            },
        };
        if n > p.extent {
            Err(Error::Bounds)
        } else if n > p.readable {
            if p.backed {
                Err(Error::ZeroFill)
            } else {
                Err(Error::Unmapped)
            }
        } else {
            Ok(p.offset)
        }
    }

    /// The bytes of the view that an RVA range stands for.
    pub fn derva_bytes(&self, rva: u32, n: usize) -> (r: Result<&'a [u8], Error>)
        requires
            self.wf(),
        ensures
            match r {
                Ok(bytes) => self.spec_slice(rva, n) matches Ok(o) && bytes@
                    == self.data@.subrange(o as int, o + n),
                Err(e) => self.spec_slice(rva, n) == Err::<usize, Error>(e),
            },
    {
        match self.slice_at(rva, n) {
            Ok(o) => Ok(vstd::slice::slice_subrange(self.data, o, o + n)),
            Err(e) => Err(e),
        }
    }

    /// The byte at `rva`.
    pub open spec fn spec_load_u8(&self, rva: u32) -> Result<u8, Error> {
        match self.spec_slice(rva, 1) {
            Ok(o) => Ok(self.data@[o as int]),
            Err(e) => Err(e),
        }
    }

    /// The 16-bit number at `rva`, wherever it lies.
    pub open spec fn spec_load_u16(&self, rva: u32) -> Result<u16, Error> {
        match self.spec_slice(rva, 2) {
            Ok(o) => Ok(le_u16(self.data@, o as int) as u16),
            Err(e) => Err(e),
        }
    }

    /// The 32-bit number at `rva`, wherever it lies.
    pub open spec fn spec_load_u32(&self, rva: u32) -> Result<u32, Error> {
        match self.spec_slice(rva, 4) {
            Ok(o) => Ok(le_u32(self.data@, o as int) as u32),
            Err(e) => Err(e),
        }
    }

    /// The 64-bit number at `rva`, wherever it lies.
    pub open spec fn spec_load_u64(&self, rva: u32) -> Result<u64, Error> {
        match self.spec_slice(rva, 8) {
            Ok(o) => Ok(le_u64(self.data@, o as int) as u64),
            Err(e) => Err(e),
        }
    }

    /// A typed read: the number of `width` bytes at `rva`, which must lie at a multiple of its
    /// width in the buffer.
    pub open spec fn spec_derva(&self, rva: u32, width: usize) -> Result<int, Error> {
        match self.spec_slice(rva, width) {
            Ok(o) => if o % width != 0 {
                Err(Error::Misalign)
            } else if width == 2 {
                Ok(le_u16(self.data@, o as int))
            } else if width == 4 {
                Ok(le_u32(self.data@, o as int))
            } else {
                Ok(le_u64(self.data@, o as int))
            },
            Err(e) => Err(e),
        }
    }

    /// Reads the byte at `rva`.
    pub fn load_u8(&self, rva: u32) -> (r: Result<u8, Error>)
        requires
            self.wf(),
        ensures
            r == self.spec_load_u8(rva),
    {
        match self.slice_at(rva, 1) {
            Ok(o) => Ok(self.data[o]),
            Err(e) => Err(e),
        }
    }

    /// Reads the 16-bit number at `rva` without regard to alignment.
    pub fn load_u16(&self, rva: u32) -> (r: Result<u16, Error>)
        requires
            self.wf(),
        ensures
            r == self.spec_load_u16(rva),
    {
        match self.slice_at(rva, 2) {
            Ok(o) => Ok(read_u16(self.data, o)),
            Err(e) => Err(e),
        }
    }

    /// Reads the 32-bit number at `rva` without regard to alignment.
    pub fn load_u32(&self, rva: u32) -> (r: Result<u32, Error>)
        requires
            self.wf(),
        ensures
            r == self.spec_load_u32(rva),
    {
        match self.slice_at(rva, 4) {
            Ok(o) => Ok(read_u32(self.data, o)),
            Err(e) => Err(e),
        }
    }

    /// Reads the 64-bit number at `rva` without regard to alignment.
    pub fn load_u64(&self, rva: u32) -> (r: Result<u64, Error>)
        requires
            self.wf(),
        ensures
            r == self.spec_load_u64(rva),
    {
        match self.slice_at(rva, 8) {
            Ok(o) => Ok(read_u64(self.data, o)),
            Err(e) => Err(e),
        }
    }

    /// Reads the 16-bit number at `rva`; fails with `Misalign` if it is not aligned.
    pub fn derva_u16(&self, rva: u32) -> (r: Result<u16, Error>)
        requires
            self.wf(),
        ensures
            match r {
                Ok(v) => self.spec_derva(rva, 2) == Ok::<int, Error>(v as int),
                Err(e) => self.spec_derva(rva, 2) == Err::<int, Error>(e),
            },
    {
        match self.slice_at(rva, 2) {
            Ok(o) => if o % 2 != 0 {
                Err(Error::Misalign)
            } else {
                Ok(read_u16(self.data, o))
            },
            Err(e) => Err(e),
        }
    }

    /// Reads the 32-bit number at `rva`; fails with `Misalign` if it is not aligned.
    pub fn derva_u32(&self, rva: u32) -> (r: Result<u32, Error>)
        requires
            self.wf(),
        ensures
            match r {
                Ok(v) => self.spec_derva(rva, 4) == Ok::<int, Error>(v as int),
                Err(e) => self.spec_derva(rva, 4) == Err::<int, Error>(e),
            },
    {
        match self.slice_at(rva, 4) {
            Ok(o) => if o % 4 != 0 {
                Err(Error::Misalign)
            } else {
                Ok(read_u32(self.data, o))
            },
            Err(e) => Err(e),
        }
    }

    /// Reads the 64-bit number at `rva`; fails with `Misalign` if it is not aligned.
    pub fn derva_u64(&self, rva: u32) -> (r: Result<u64, Error>)
        requires
            self.wf(),
        ensures
            match r {
                Ok(v) => self.spec_derva(rva, 8) == Ok::<int, Error>(v as int),
                Err(e) => self.spec_derva(rva, 8) == Err::<int, Error>(e),
            },
    {
        match self.slice_at(rva, 8) {
            Ok(o) => if o % 8 != 0 {
                Err(Error::Misalign)
            } else {
                Ok(read_u64(self.data, o))
            },
            Err(e) => Err(e),
        }
    }

    /// The C string at `rva`: the bytes up to the first NUL, which must come within the
    /// readable bytes of the region and within `C_STR_CAP` bytes.
    pub open spec fn spec_c_str(&self, rva: u32) -> Result<Seq<u8>, Error> {
        match self.spec_slice(rva, 1) {
            Err(e) => Err(e),
            Ok(o) => {
                let readable = self.spec_locate(rva)->Ok_0.readable;
                let end = o + spec_min(readable as int, C_STR_CAP as int);
                let k = nul_pos(self.data@, o as int, end);
                if k < end {
                    Ok(self.data@.subrange(o as int, k))
                } else {
                    Err(Error::Invalid)
                }
            },
        }
    }

    /// Reads the C string at `rva`, without its terminator.
    pub fn derva_c_str(&self, rva: u32) -> (r: Result<&'a [u8], Error>)
        requires
            self.wf(),
        ensures
            match r {
                Ok(bytes) => self.spec_c_str(rva) == Ok::<Seq<u8>, Error>(bytes@),
                Err(e) => self.spec_c_str(rva) == Err::<Seq<u8>, Error>(e),
            },
            r matches Ok(bytes) ==> bytes@.len() < C_STR_CAP,
    {
        let o = match self.slice_at(rva, 1) {
            Ok(o) => o,
            Err(e) => {
                return Err(e);
            },
        };
        let p = match self.locate(rva) {
            Ok(p) => p,
            Err(e) => {
                return Err(e);
            },
        };
        let end: usize = o + min_usize(p.readable, C_STR_CAP);
        let k: usize = find_nul(self.data, o, end);
        if k < end {
            Ok(vstd::slice::slice_subrange(self.data, o, k))
        } else {
            Err(Error::Invalid)
        }
    }

    /// The largest virtual address the image's pointers can hold.
    pub open spec fn spec_max_va(&self) -> int {
        match self.headers.bitness {
            Bitness::Pe32 => u32::MAX as int,
            Bitness::Pe64 => u64::MAX as int,
        }
    }

    /// The RVA that a virtual address stands for.
    pub open spec fn spec_va_to_rva(&self, va: u64) -> Result<u32, Error> {
        if va == 0 {
            Err(Error::Null)
        } else if va < self.headers.image_base || va - self.headers.image_base
            > self.headers.size_of_image {
            Err(Error::Bounds)
        } else {
            Ok((va - self.headers.image_base) as u32)
        }
    }

    /// The virtual address of an RVA.
    pub open spec fn spec_rva_to_va(&self, rva: u32) -> Result<u64, Error> {
        if rva == 0 {
            Err(Error::Null)
        } else if rva > self.headers.size_of_image {
            Err(Error::Bounds)
        } else if self.headers.image_base + rva > self.spec_max_va() {
            Err(Error::Overflow)
        } else {
            Ok((self.headers.image_base + rva) as u64)
        }
    }

    /// Converts a virtual address to an RVA.
    pub fn va_to_rva(&self, va: u64) -> (r: Result<u32, Error>)
        ensures
            r == self.spec_va_to_rva(va),
    {
        if va == 0 {
            Err(Error::Null)
        } else if va < self.headers.image_base || va - self.headers.image_base
            > self.headers.size_of_image as u64 {
            Err(Error::Bounds)
        } else {
            Ok((va - self.headers.image_base) as u32)
        }
    }

    /// Converts an RVA to a virtual address.
    pub fn rva_to_va(&self, rva: u32) -> (r: Result<u64, Error>)
        ensures
            r == self.spec_rva_to_va(rva),
    {
        let max: u64 = match self.headers.bitness {
            Bitness::Pe32 => u32::MAX as u64,
            Bitness::Pe64 => u64::MAX,
        };
        if rva == 0 {
            Err(Error::Null)
        } else if rva > self.headers.size_of_image {
            Err(Error::Bounds)
        } else if self.headers.image_base > max || max - self.headers.image_base < rva as u64 {
            Err(Error::Overflow)
        } else {
            Ok(self.headers.image_base + rva as u64)
        }
    }

    /// Converting an RVA to a virtual address and back gives the RVA again.
    pub proof fn lemma_va_round_trip(&self, rva: u32)
        requires
            self.spec_rva_to_va(rva) is Ok,
        ensures
            self.spec_va_to_rva(self.spec_rva_to_va(rva)->Ok_0) == Ok::<u32, Error>(rva),
    {
    }

    /// Follows a pointer to a 32-bit number.
    pub fn deref_u32(&self, va: u64) -> (r: Result<u32, Error>)
        requires
            self.wf(),
        ensures
            match self.spec_va_to_rva(va) {
                Err(e) => r == Err::<u32, Error>(e),
                Ok(rva) => match r {
                    Ok(v) => self.spec_derva(rva, 4) == Ok::<int, Error>(v as int),
                    Err(e) => self.spec_derva(rva, 4) == Err::<int, Error>(e),
                },
            },
    {
        match self.va_to_rva(va) {
            Ok(rva) => self.derva_u32(rva),
            Err(e) => Err(e),
        }
    }

    /// Follows a pointer to a 64-bit number.
    pub fn deref_u64(&self, va: u64) -> (r: Result<u64, Error>)
        requires
            self.wf(),
        ensures
            match self.spec_va_to_rva(va) {
                Err(e) => r == Err::<u64, Error>(e),
                Ok(rva) => match r {
                    Ok(v) => self.spec_derva(rva, 8) == Ok::<int, Error>(v as int),
                    Err(e) => self.spec_derva(rva, 8) == Err::<int, Error>(e),
                },
            },
    {
        match self.va_to_rva(va) {
            Ok(rva) => self.derva_u64(rva),
            Err(e) => Err(e),
        }
    }

    /// Follows a pointer to a C string.
    pub fn deref_c_str(&self, va: u64) -> (r: Result<&'a [u8], Error>)
        requires
            self.wf(),
        ensures
            match self.spec_va_to_rva(va) {
                Err(e) => r == Err::<&[u8], Error>(e),
                Ok(rva) => match r {
                    Ok(bytes) => self.spec_c_str(rva) == Ok::<Seq<u8>, Error>(bytes@),
                    Err(e) => self.spec_c_str(rva) == Err::<Seq<u8>, Error>(e),
                },
            },
    {
        match self.va_to_rva(va) {
            Ok(rva) => self.derva_c_str(rva),
            Err(e) => Err(e),
        }
    }

    /// Where a table of `count` entries of `width` bytes at `rva` begins in the buffer.
    ///
    /// An empty table is nowhere, and never fails.
    pub open spec fn spec_table(&self, rva: u32, count: u32, width: usize) -> Result<
        usize,
        Error,
    > {
        if count == 0 {
            Ok(0)
        } else if rva != 0 && rva + count * width > u32::MAX {
            Err(Error::Overflow)
        } else {
            self.spec_slice(rva, (count * width) as usize)
        }
    }

    /// The table of `count` 32-bit numbers at `rva`.
    pub open spec fn spec_u32s(&self, rva: u32, count: u32) -> Result<Seq<u32>, Error> {
        match self.spec_table(rva, count, 4) {
            Ok(o) => Ok(Seq::new(count as nat, |i: int| le_u32(self.data@, o + 4 * i) as u32)),
            Err(e) => Err(e),
        }
    }

    /// The table of `count` 16-bit numbers at `rva`.
    pub open spec fn spec_u16s(&self, rva: u32, count: u32) -> Result<Seq<u16>, Error> {
        match self.spec_table(rva, count, 2) {
            Ok(o) => Ok(Seq::new(count as nat, |i: int| le_u16(self.data@, o + 2 * i) as u16)),
            Err(e) => Err(e),
        }
    }

    /// The table of `count` 64-bit numbers at `rva`.
    pub open spec fn spec_u64s(&self, rva: u32, count: u32) -> Result<Seq<u64>, Error> {
        match self.spec_table(rva, count, 8) {
            Ok(o) => Ok(Seq::new(count as nat, |i: int| le_u64(self.data@, o + 8 * i) as u64)),
            Err(e) => Err(e),
        }
    }

    /// Finds where a table begins in the buffer.
    pub fn table_at(&self, rva: u32, count: u32, width: usize) -> (r: Result<usize, Error>)
        requires
            self.wf(),
            1 <= width <= 8,
        ensures
            r == self.spec_table(rva, count, width),
            r matches Ok(o) ==> o + count * width <= self.data.len(),
    {
        if count == 0 {
            return Ok(0);
        }
        assert(count * width <= 8 * count) by (nonlinear_arith)
            requires
                width <= 8,
        ;
        let bytes: u64 = count as u64 * width as u64;
        if rva != 0 && bytes > (u32::MAX - rva) as u64 {
            return Err(Error::Overflow);
        }
        if rva == 0 {
            return Err(Error::Null);
        }
        self.slice_at(rva, bytes as usize)
    }

    /// Reads a table of 32-bit numbers.
    pub fn load_u32s(&self, rva: u32, count: u32) -> (r: Result<Vec<u32>, Error>)
        requires
            self.wf(),
        ensures
            match r {
                Ok(v) => self.spec_u32s(rva, count) == Ok::<Seq<u32>, Error>(v@),
                Err(e) => self.spec_u32s(rva, count) == Err::<Seq<u32>, Error>(e),
            },
    {
        let o = match self.table_at(rva, count, 4) {
            Ok(o) => o,
            Err(e) => {
                return Err(e);
            },
        };
        let n: usize = count as usize;
        let mut out: Vec<u32> = Vec::new();
        let mut i: usize = 0;
        while i < n
            invariant
                i <= n,
                n == count,
                o + 4 * n <= self.data.len(),
                out@.len() == i,
                forall|k: int| 0 <= k < i ==> out@[k] == le_u32(self.data@, o + 4 * k) as u32,
            decreases n - i,
        {
            out.push(read_u32(self.data, o + 4 * i));
            i = i + 1;
        }
        assert(out@ =~= Seq::new(count as nat, |i: int| le_u32(self.data@, o + 4 * i) as u32));
        Ok(out)
    }

    /// Reads a table of 16-bit numbers.
    pub fn load_u16s(&self, rva: u32, count: u32) -> (r: Result<Vec<u16>, Error>)
        requires
            self.wf(),
        ensures
            match r {
                Ok(v) => self.spec_u16s(rva, count) == Ok::<Seq<u16>, Error>(v@),
                Err(e) => self.spec_u16s(rva, count) == Err::<Seq<u16>, Error>(e),
            },
    {
        let o = match self.table_at(rva, count, 2) {
            Ok(o) => o,
            Err(e) => {
                return Err(e);
            },
        };
        let n: usize = count as usize;
        let mut out: Vec<u16> = Vec::new();
        let mut i: usize = 0;
        while i < n
            invariant
                i <= n,
                n == count,
                o + 2 * n <= self.data.len(),
                out@.len() == i,
                forall|k: int| 0 <= k < i ==> out@[k] == le_u16(self.data@, o + 2 * k) as u16,
            decreases n - i,
        {
            out.push(read_u16(self.data, o + 2 * i));
            i = i + 1;
        }
        assert(out@ =~= Seq::new(count as nat, |i: int| le_u16(self.data@, o + 2 * i) as u16));
        Ok(out)
    }

    /// Reads a table of 64-bit numbers.
    pub fn load_u64s(&self, rva: u32, count: u32) -> (r: Result<Vec<u64>, Error>)
        requires
            self.wf(),
        ensures
            match r {
                Ok(v) => self.spec_u64s(rva, count) == Ok::<Seq<u64>, Error>(v@),
                Err(e) => self.spec_u64s(rva, count) == Err::<Seq<u64>, Error>(e),
            },
    {
        let o = match self.table_at(rva, count, 8) {
            Ok(o) => o,
            Err(e) => {
                return Err(e);
            },
        };
        let n: usize = count as usize;
        let mut out: Vec<u64> = Vec::new();
        let mut i: usize = 0;
        while i < n
            invariant
                i <= n,
                n == count,
                o + 8 * n <= self.data.len(),
                out@.len() == i,
                forall|k: int| 0 <= k < i ==> out@[k] == le_u64(self.data@, o + 8 * k) as u64,
            decreases n - i,
        {
            out.push(read_u64(self.data, o + 8 * i));
            i = i + 1;
        }
        assert(out@ =~= Seq::new(count as nat, |i: int| le_u64(self.data@, o + 8 * i) as u64));
        Ok(out)
    }

    /// Where a typed table begins in the buffer: as `spec_table`, and `Misalign` where a
    /// table that is not empty does not begin at a multiple of the width of its entries.
    pub open spec fn spec_aligned_table(&self, rva: u32, count: u32, width: usize) -> Result<
        usize,
        Error,
    > {
        match self.spec_table(rva, count, width) {
            Err(e) => Err(e),
            Ok(o) => if count != 0 && o % width != 0 {
                Err(Error::Misalign)
            } else {
                Ok(o)
            },
        }
    }

    /// Reads a typed table of 16-bit numbers, which must be aligned.
    pub fn derva_u16s(&self, rva: u32, count: u32) -> (r: Result<Vec<u16>, Error>)
        requires
            self.wf(),
        ensures
            match self.spec_aligned_table(rva, count, 2) {
                Err(e) => r == Err::<Vec<u16>, Error>(e),
                Ok(_) => r matches Ok(v) && self.spec_u16s(rva, count) == Ok::<Seq<u16>, Error>(
                    v@,
                ),
            },
    {
        match self.table_at(rva, count, 2) {
            Err(e) => Err(e),
            Ok(o) => if count != 0 && o % 2 != 0 {
                Err(Error::Misalign)
            } else {
                self.load_u16s(rva, count)
            },
        }
    }

    /// Reads a typed table of 32-bit numbers, which must be aligned.
    pub fn derva_u32s(&self, rva: u32, count: u32) -> (r: Result<Vec<u32>, Error>)
        requires
            self.wf(),
        ensures
            match self.spec_aligned_table(rva, count, 4) {
                Err(e) => r == Err::<Vec<u32>, Error>(e),
                Ok(_) => r matches Ok(v) && self.spec_u32s(rva, count) == Ok::<Seq<u32>, Error>(
                    v@,
                ),
            },
    {
        match self.table_at(rva, count, 4) {
            Err(e) => Err(e),
            Ok(o) => if count != 0 && o % 4 != 0 {
                Err(Error::Misalign)
            } else {
                self.load_u32s(rva, count)
            },
        }
    }

    /// Reads a typed table of 64-bit numbers, which must be aligned.
    pub fn derva_u64s(&self, rva: u32, count: u32) -> (r: Result<Vec<u64>, Error>)
        requires
            self.wf(),
        ensures
            match self.spec_aligned_table(rva, count, 8) {
                Err(e) => r == Err::<Vec<u64>, Error>(e),
                Ok(_) => r matches Ok(v) && self.spec_u64s(rva, count) == Ok::<Seq<u64>, Error>(
                    v@,
                ),
            },
    {
        match self.table_at(rva, count, 8) {
            Err(e) => Err(e),
            Ok(o) => if count != 0 && o % 8 != 0 {
                Err(Error::Misalign)
            } else {
                self.load_u64s(rva, count)
            },
        }
    }
}

} // verus!
