use vstd::prelude::*;
use crate::bytes::{le_u32, le_u64, read_u32, read_u64};
use crate::error::Error;
use crate::exports::{Export, ExportBy, ExportView};
use crate::image::{Bitness, Image, DIR_BASERELOC};
use crate::imports::Descriptor;
use crate::relocs::{relocs_from, Reloc, REL_DIR64, REL_HIGHLOW};

verus! {

/// `dst` with `src` written over it from offset `at` on.
pub open spec fn overlay(dst: Seq<u8>, at: int, src: Seq<u8>) -> Seq<u8> {
    Seq::new(
        dst.len(),
        |i: int|
            if at <= i < at + src.len() {
                src[i - at]
            } else {
                dst[i]
            },
    )
}

/// The `width` little-endian bytes of `v`, lowest first.
pub open spec fn le_bytes(v: int, width: nat) -> Seq<u8>
    decreases width,
{
    if width == 0 {
        Seq::empty()
    } else {
        seq![(v % 0x100) as u8] + le_bytes(v / 0x100, (width - 1) as nat)
    }
}

/// Copies `n` bytes of `src` from `from` on over `dst` at `at`.
pub fn copy_into(dst: &mut Vec<u8>, at: usize, src: &[u8], from: usize, n: usize)
    requires
        at + n <= old(dst).len(),
        from + n <= src.len(),
    ensures
        final(dst)@ == overlay(old(dst)@, at as int, src@.subrange(from as int, from + n)),
{
    let mut i: usize = 0;
    while i < n
        invariant
            i <= n,
            at + n <= dst.len(),
            from + n <= src.len(),
            dst@.len() == old(dst)@.len(),
            dst@ == overlay(old(dst)@, at as int, src@.subrange(from as int, from + i)),
        decreases n - i,
    {
        dst.set(at + i, src[from + i]);
        i = i + 1;
        assert(dst@ =~= overlay(old(dst)@, at as int, src@.subrange(from as int, from + i)));
    }
}

/// Writes the low `width` bytes of `v` over `dst` at `at`, lowest first.
pub fn write_le(dst: &mut Vec<u8>, at: usize, v: u64, width: usize)
    requires
        at + width <= old(dst).len(),
        width <= 8,
    ensures
        final(dst)@ == overlay(old(dst)@, at as int, le_bytes(v as int, width as nat)),
{
    let mut i: usize = 0;
    let mut rest: u64 = v;
    let ghost mut done: Seq<u8> = Seq::empty();
    assert(dst@ =~= overlay(old(dst)@, at as int, done));
    while i < width
        invariant
            i <= width <= 8,
            at + width <= dst.len(),
            dst@.len() == old(dst)@.len(),
            done.len() == i,
            dst@ == overlay(old(dst)@, at as int, done),
            le_bytes(v as int, width as nat) == done + le_bytes(rest as int, (width - i) as nat),
        decreases width - i,
    {
        let b: u8 = (rest % 0x100) as u8;
        dst.set(at + i, b);
        proof {
            assert(le_bytes(rest as int, (width - i) as nat) == seq![b] + le_bytes(
                rest as int / 0x100,
                (width - i - 1) as nat,
            ));
            assert(done + (seq![b] + le_bytes(rest as int / 0x100, (width - i - 1) as nat)) =~= (
            done + seq![b]) + le_bytes(rest as int / 0x100, (width - i - 1) as nat));
            done = done + seq![b];
        }
        rest = rest / 0x100;
        i = i + 1;
        assert(dst@ =~= overlay(old(dst)@, at as int, done));
    }
    assert(le_bytes(rest as int, 0) =~= Seq::<u8>::empty());
    assert(done + Seq::<u8>::empty() =~= done);
}

/// A buffer for the loaded image: as many zero bytes as the image's size.
pub fn mm_alloc(pe: &Image) -> (r: Vec<u8>)
    ensures
        r@ == Seq::new(pe.headers.size_of_image as nat, |i: int| 0u8),
{
    let n: usize = pe.headers.size_of_image as usize;
    let mut v: Vec<u8> = Vec::new();
    let mut i: usize = 0;
    while i < n
        invariant
            i <= n,
            v@ == Seq::new(i as nat, |k: int| 0u8),
        decreases n - i,
    {
        v.push(0);
        i = i + 1;
        assert(v@ =~= Seq::new(i as nat, |k: int| 0u8));
    }
    v
}

impl<'a> Image<'a> {
    /// Whether the headers and the raw bytes of the first `upto` sections can be copied from
    /// the file to their virtual addresses in a buffer of `len` bytes.
    pub open spec fn spec_copy_fits(&self, len: int, upto: int) -> bool {
        &&& self.headers.size_of_headers <= self.data@.len()
        &&& self.headers.size_of_headers <= len
        &&& forall|i: int|
            0 <= i < upto ==> {
                let s = #[trigger] self.sections()[i];
                &&& s.pointer_to_raw_data + s.size_of_raw_data <= self.data@.len()
                &&& s.virtual_address + s.size_of_raw_data <= len
            }
    }

    /// `image` with the headers and then the raw bytes of the first `upto` sections copied
    /// in, each section at its virtual address, in table order.
    pub open spec fn spec_copied(&self, image: Seq<u8>, upto: int) -> Seq<u8>
        decreases upto,
    {
        if upto <= 0 {
            overlay(image, 0, self.data@.subrange(0, self.headers.size_of_headers as int))
        } else {
            let s = self.sections()[upto - 1];
            overlay(
                self.spec_copied(image, upto - 1),
                s.virtual_address as int,
                self.data@.subrange(
                    s.pointer_to_raw_data as int,
                    s.pointer_to_raw_data + s.size_of_raw_data,
                ),
            )
        }
    }

    /// Copying in changes no length.
    pub proof fn lemma_copied_len(&self, image: Seq<u8>, upto: int)
        ensures
            self.spec_copied(image, upto).len() == image.len(),
        decreases upto,
    {
        if upto > 0 {
            self.lemma_copied_len(image, upto - 1);
        }
    }

    /// The width in bytes of the image's pointers.
    pub open spec fn spec_pointer_width(&self) -> nat {
        match self.headers.bitness {
            Bitness::Pe32 => 4,
            Bitness::Pe64 => 8,
        }
    }

    /// The width in bytes of the image's pointers.
    pub fn pointer_width(&self) -> (r: usize)
        ensures
            r == self.spec_pointer_width(),
    {
        match self.headers.bitness {
            Bitness::Pe32 => 4,
            Bitness::Pe64 => 8,
        }
    }
}

/// The pointer of `width` bytes at `at`, as a number.
pub open spec fn pointer_at(image: Seq<u8>, at: int, width: nat) -> int {
    if width == 4 {
        le_u32(image, at)
    } else {
        le_u64(image, at)
    }
}

/// One more than the largest pointer of `width` bytes.
pub open spec fn pointer_modulus(width: nat) -> int {
    if width == 4 {
        0x1_0000_0000
    } else {
        0x1_0000_0000_0000_0000
    }
}

/// How many bytes the pointer takes that an entry of the given type names: four for
/// `REL_HIGHLOW`, eight for `REL_DIR64`.
pub open spec fn reloc_width(kind: u16) -> nat {
    if kind == REL_HIGHLOW {
        4
    } else {
        8
    }
}

/// `image` with `delta` added, wrapping, to the pointer that each of the first `upto`
/// entries names, in order, each pointer as wide as its entry's type says.
pub open spec fn rebased(image: Seq<u8>, relocs: Seq<Reloc>, delta: int, upto: int) -> Seq<u8>
    decreases upto,
{
    if upto <= 0 {
        image
    } else {
        let before = rebased(image, relocs, delta, upto - 1);
        let at = relocs[upto - 1].rva as int;
        let width = reloc_width(relocs[upto - 1].kind);
        overlay(
            before,
            at,
            le_bytes((pointer_at(before, at, width) + delta) % pointer_modulus(width), width),
        )
    }
}

/// What keeps the `k`-th entry from being applied in a buffer of `len` bytes, if anything:
/// `Invalid` for a type that is neither `REL_HIGHLOW` nor `REL_DIR64`, `Bounds` for a
/// pointer that does not lie within the buffer.
pub open spec fn reloc_fault(reloc: Reloc, len: int) -> Option<Error> {
    if reloc.kind != REL_HIGHLOW && reloc.kind != REL_DIR64 {
        Some(Error::Invalid)
    } else if reloc.rva + reloc_width(reloc.kind) > len {
        Some(Error::Bounds)
    } else {
        None
    }
}

/// The fault of the first entry from the `k`-th on that cannot be applied.
pub open spec fn rebase_fault(relocs: Seq<Reloc>, len: int, k: int) -> Option<Error>
    decreases relocs.len() - k,
{
    if k < 0 || k >= relocs.len() {
        None
    } else if reloc_fault(relocs[k], len) is Some {
        reloc_fault(relocs[k], len)
    } else {
        rebase_fault(relocs, len, k + 1)
    }
}

/// Reads the pointer of `width` bytes at `at`.
fn read_pointer(image: &[u8], at: usize, width: usize) -> (r: u64)
    requires
        width == 4 || width == 8,
        at + width <= image.len(),
    ensures
        r == pointer_at(image@, at as int, width as nat),
{
    if width == 4 {
        read_u32(image, at) as u64
    } else {
        read_u64(image, at)
    }
}

/// A pointer moved with its image from `image_base` to `virt_base`, wrapping at its width.
fn moved_pointer(value: u64, virt_base: u64, image_base: u64, width: usize) -> (r: u64)
    requires
        width == 4 || width == 8,
    ensures
        r == (value + (virt_base - image_base)) % pointer_modulus(width as nat),
{
    let lifted: u128 = value as u128 + virt_base as u128 + (0x1_0000_0000_0000_0000u128
        - image_base as u128);
    if width == 4 {
        (lifted % 0x1_0000_0000u128) as u64
    } else {
        (lifted % 0x1_0000_0000_0000_0000u128) as u64
    }
}

/// Copies the headers and every section's raw bytes from the file into the buffer of the
/// loaded image.
///
/// Fails with `Bounds`, and leaves the buffer as it is, where something would not fit.
pub fn mm_copy(pe: &Image, image: &mut Vec<u8>) -> (r: Result<(), Error>)
    ensures
        r is Ok <==> pe.spec_copy_fits(old(image)@.len() as int, pe.sections().len() as int),
        r is Ok ==> final(image)@ == pe.spec_copied(old(image)@, pe.sections().len() as int),
        r matches Err(e) ==> e == Error::Bounds && final(image)@ == old(image)@,
{
    let len: usize = image.len();
    let size: usize = pe.data.len();
    let n: usize = pe.headers.sections.len();
    let size_of_headers: usize = pe.headers.size_of_headers as usize;
    if size_of_headers > size || size_of_headers > len {
        return Err(Error::Bounds);
    }
    let mut i: usize = 0;
    while i < n
        invariant
            i <= n,
            n == pe.sections().len(),
            size == pe.data@.len(),
            len == image@.len(),
            pe.spec_copy_fits(len as int, i as int),
        decreases n - i,
    {
        let s = &pe.headers.sections[i];
        if s.pointer_to_raw_data as u64 + s.size_of_raw_data as u64 > size as u64
            || s.virtual_address as u64 + s.size_of_raw_data as u64 > len as u64 {
            return Err(Error::Bounds);
        }
        i = i + 1;
    }
    copy_into(image, 0, pe.data, 0, size_of_headers);
    let mut j: usize = 0;
    while j < n
        invariant
            j <= n,
            n == pe.sections().len(),
            size == pe.data@.len(),
            len == image@.len(),
            len == old(image)@.len(),
            pe.spec_copy_fits(len as int, n as int),
            image@ == pe.spec_copied(old(image)@, j as int),
        decreases n - j,
    {
        let s = &pe.headers.sections[j];
        copy_into(
            image,
            s.virtual_address as usize,
            pe.data,
            s.pointer_to_raw_data as usize,
            s.size_of_raw_data as usize,
        );
        j = j + 1;
    }
    Ok(())
}

/// Moves the image in the buffer from its preferred base to `virt_base`: adds the
/// difference, wrapping, to the pointer that each base relocation names, four bytes wide
/// for a `REL_HIGHLOW` entry and eight for a `REL_DIR64` entry.
///
/// Fails, and leaves the buffer as it is, where the image has no sound relocation
/// directory, an entry is of another type (`Invalid`), or a pointer would not lie within
/// the buffer (`Bounds`).
pub fn mm_rebase(pe: &Image, image: &mut Vec<u8>, virt_base: u64) -> (r: Result<(), Error>)
    requires
        pe.wf(),
    ensures
        match pe.spec_directory_bytes(DIR_BASERELOC as int) {
            Err(e) => r == Err::<(), Error>(e),
            Ok(bytes) => match relocs_from(bytes, 0, 0) {
                Err(e) => r == Err::<(), Error>(e),
                Ok(relocs) => match rebase_fault(relocs, old(image)@.len() as int, 0) {
                    Some(e) => r == Err::<(), Error>(e),
                    None => r is Ok && final(image)@ == rebased(
                        old(image)@,
                        relocs,
                        virt_base - pe.headers.image_base,
                        relocs.len() as int,
                    ),
                },
            },
        },
        r is Err ==> final(image)@ == old(image)@,
{
    let directory = match pe.base_relocs() {
        Ok(d) => d,
        Err(e) => {
            return Err(e);
        },
    };
    let relocs = match directory.relocs() {
        Ok(v) => v,
        Err(e) => {
            return Err(e);
        },
    };
    let len: usize = image.len();
    let n: usize = relocs.len();
    let mut i: usize = 0;
    while i < n
        invariant
            i <= n,
            n == relocs@.len(),
            len == old(image)@.len(),
            image@ == old(image)@,
            pe.spec_directory_bytes(DIR_BASERELOC as int) == Ok::<Seq<u8>, Error>(
                directory.bytes@,
            ),
            relocs_from(directory.bytes@, 0, 0) == Ok::<Seq<Reloc>, Error>(relocs@),
            rebase_fault(relocs@, len as int, 0) == rebase_fault(relocs@, len as int, i as int),
            forall|k: int| 0 <= k < i ==> reloc_fault(#[trigger] relocs@[k], len as int) is None,
        decreases n - i,
    {
        let reloc = relocs[i];
        if reloc.kind != REL_HIGHLOW && reloc.kind != REL_DIR64 {
            return Err(Error::Invalid);
        }
        let width: u64 = if reloc.kind == REL_HIGHLOW {
            4
        } else {
            8
        };
        if reloc.rva as u64 + width > len as u64 {
            return Err(Error::Bounds);
        }
        i = i + 1;
    }
    let image_base: u64 = pe.headers.image_base;
    let ghost delta: int = virt_base - image_base;
    let mut j: usize = 0;
    while j < n
        invariant
            j <= n,
            n == relocs@.len(),
            len == image@.len(),
            len == old(image)@.len(),
            delta == virt_base - image_base,
            forall|k: int| 0 <= k < n ==> reloc_fault(#[trigger] relocs@[k], len as int) is None,
            image@ == rebased(old(image)@, relocs@, delta, j as int),
        decreases n - j,
    {
        let reloc = relocs[j];
        assert(reloc_fault(relocs@[j as int], len as int) is None);
        let at: usize = reloc.rva as usize;
        let width: usize = if reloc.kind == REL_HIGHLOW {
            4
        } else {
            8
        };
        let value: u64 = read_pointer(image.as_slice(), at, width);
        let moved: u64 = moved_pointer(value, virt_base, image_base, width);
        write_le(image, at, moved, width);
        j = j + 1;
    }
    Ok(())
}

/// The import descriptors of the image, one for each module it depends on, in table order.
///
/// The caller loads each of those modules and hands its exports to `mm_deps_import`.
pub fn mm_deps(pe: &Image) -> (r: Result<Vec<Descriptor>, Error>)
    requires
        pe.wf(),
    ensures
        match pe.spec_imports() {
            Err(e) => r == Err::<Vec<Descriptor>, Error>(e),
            Ok(imports) => match r {
                Ok(v) => imports.spec_descriptors_from(pe, 0) == Ok::<Seq<Descriptor>, Error>(v@),
                Err(e) => imports.spec_descriptors_from(pe, 0) == Err::<Seq<Descriptor>, Error>(
                    e,
                ),
            },
        },
{
    match pe.imports() {
        Ok(imports) => imports.descriptors(pe),
        Err(e) => Err(e),
    }
}

/// The address that a thunk of `pe` resolves to among the exports of a loaded module.
///
/// A forwarder is not followed: it is `Invalid`.
pub open spec fn spec_resolve(pe: &Image, dep: &ExportBy, thunk: u64) -> Result<u64, Error> {
    match pe.spec_import(thunk) {
        Err(e) => Err(e),
        Ok(import) => match dep.spec_import(import) {
            Err(e) => Err(e),
            Ok(ExportView::Forward(_)) => Err(Error::Invalid),
            Ok(ExportView::Symbol(rva)) => dep.image.spec_rva_to_va(rva),
        },
    }
}

/// The address for each thunk, in order: what the thunk resolves to, and zero for a thunk
/// that does not resolve.
pub open spec fn resolved(pe: &Image, dep: &ExportBy, thunks: Seq<u64>) -> Seq<u64> {
    Seq::new(
        thunks.len(),
        |i: int|
            match spec_resolve(pe, dep, thunks[i]) {
                Ok(va) => va,
                Err(_) => 0,
            },
    )
}

/// What keeps the `k`-th slot of a table at `at` from being filled in a buffer of `len`
/// bytes, if anything: the fault of its thunk where that does not resolve, else `Bounds`
/// where the slot does not lie within the buffer.
pub open spec fn slot_fault(
    pe: &Image,
    dep: &ExportBy,
    thunks: Seq<u64>,
    at: int,
    len: int,
    k: int,
) -> Option<Error> {
    match spec_resolve(pe, dep, thunks[k]) {
        Err(e) => Some(e),
        Ok(_) => if at + pe.spec_pointer_width() * (k + 1) > len {
            Some(Error::Bounds)
        } else {
            None
        },
    }
}

/// The first slot from the `k`-th on that cannot be filled; the number of thunks where
/// every one of them can.
pub open spec fn first_unfilled(
    pe: &Image,
    dep: &ExportBy,
    thunks: Seq<u64>,
    at: int,
    len: int,
    k: int,
) -> int
    decreases thunks.len() - k,
{
    if k < 0 || k >= thunks.len() {
        thunks.len() as int
    } else if slot_fault(pe, dep, thunks, at, len, k) is Some {
        k
    } else {
        first_unfilled(pe, dep, thunks, at, len, k + 1)
    }
}

/// `image` with the first `upto` of the pointers written as a table at `at`.
pub open spec fn written(image: Seq<u8>, at: int, values: Seq<u64>, width: nat, upto: int) -> Seq<
    u8,
>
    decreases upto,
{
    if upto <= 0 {
        image
    } else {
        overlay(
            written(image, at, values, width, upto - 1),
            at + width * (upto - 1),
            le_bytes(values[upto - 1] as int, width),
        )
    }
}

/// Resolves one thunk of `pe` among the exports of a loaded module.
pub fn mm_resolve(pe: &Image, dep: &ExportBy, thunk: u64) -> (r: Result<u64, Error>)
    requires
        pe.wf(),
        dep.wf(),
    ensures
        r == spec_resolve(pe, dep, thunk),
{
    let import = match pe.import(thunk) {
        Ok(i) => i,
        Err(e) => {
            return Err(e);
        },
    };
    match dep.import(&import) {
        Err(e) => Err(e),
        Ok(Export::Forward(_)) => Err(Error::Invalid),
        Ok(Export::Symbol(rva)) => dep.image.rva_to_va(rva),
    }
}

/// Fills the import address table of one descriptor in the buffer of the loaded image:
/// for each thunk of the descriptor's name table, in order, the address of the export of
/// `dep` that satisfies it.
///
/// Each slot is written as its thunk resolves. Where a thunk does not resolve, or its slot
/// would not lie within the buffer (`Bounds`), the call ends with that fault: the slots
/// before it are filled, that slot and those after it are as they were. Where the name
/// table itself cannot be read the buffer stays as it is.
pub fn mm_deps_import(desc: &Descriptor, pe: &Image, image: &mut Vec<u8>, dep: &ExportBy) -> (r:
    Result<(), Error>)
    requires
        pe.wf(),
        dep.wf(),
    ensures
        match pe.spec_thunks(desc.original_first_thunk as int) {
            Err(e) => r == Err::<(), Error>(e) && final(image)@ == old(image)@,
            Ok(thunks) => {
                let at = desc.first_thunk as int;
                let len = old(image)@.len() as int;
                let filled = first_unfilled(pe, dep, thunks, at, len, 0);
                &&& final(image)@ == written(
                    old(image)@,
                    at,
                    resolved(pe, dep, thunks),
                    pe.spec_pointer_width(),
                    filled,
                )
                &&& r == if filled == thunks.len() {
                    Ok::<(), Error>(())
                } else {
                    Err::<(), Error>(slot_fault(pe, dep, thunks, at, len, filled)->Some_0)
                }
            },
        },
{
    let thunks = match desc.name_table(pe) {
        Ok(v) => v,
        Err(e) => {
            return Err(e);
        },
    };
    let n: usize = thunks.len();
    let width: usize = pe.pointer_width();
    let len: usize = image.len();
    let at: usize = desc.first_thunk as usize;
    let ghost vas = resolved(pe, dep, thunks@);
    let mut k: usize = 0;
    while k < n
        invariant
            k <= n,
            n == thunks@.len(),
            pe.wf(),
            dep.wf(),
            width == pe.spec_pointer_width(),
            at == desc.first_thunk,
            len == image@.len(),
            len == old(image)@.len(),
            vas == resolved(pe, dep, thunks@),
            pe.spec_thunks(desc.original_first_thunk as int) == Ok::<Seq<u64>, Error>(thunks@),
            k > 0 ==> at + width * k <= len,
            first_unfilled(pe, dep, thunks@, at as int, len as int, 0) == first_unfilled(
                pe,
                dep,
                thunks@,
                at as int,
                len as int,
                k as int,
            ),
            image@ == written(old(image)@, at as int, vas, width as nat, k as int),
        decreases n - k,
    {
        let va = match mm_resolve(pe, dep, thunks[k]) {
            Ok(va) => va,
            Err(e) => {
                return Err(e);
            },
        };
        assert(width * (k + 1) == width * k + width) by (nonlinear_arith);
        assert(k == 0 ==> width * k == 0) by (nonlinear_arith);
        let slot: usize = if k == 0 {
            at
        } else {
            at + width * k
        };
        if slot > len || len - slot < width {
            return Err(Error::Bounds);
        }
        assert(vas[k as int] == va);
        write_le(image, slot, va, width);
        k = k + 1;
    }
    Ok(())
}

/// Laying an image out in memory by hand, as a loader would.
pub trait ManualMap {
    /// The loaded image at `virt_base`, or why it cannot be laid out.
    spec fn spec_mmap(&self, virt_base: u64) -> Result<Seq<u8>, Error>;

    /// What `mmap` asks of the value it is called on.
    spec fn mappable(&self) -> bool;

    /// Lays the image out in a buffer of its own: allocates it, copies the headers and the
    /// sections in, and relocates it to `virt_base`.
    fn mmap(&self, virt_base: u64) -> (r: Result<Vec<u8>, Error>)
        requires
            self.mappable(),
        ensures
            match r {
                Ok(image) => self.spec_mmap(virt_base) == Ok::<Seq<u8>, Error>(image@),
                Err(e) => self.spec_mmap(virt_base) == Err::<Seq<u8>, Error>(e),
            },
    ;
}

impl<'a> ManualMap for Image<'a> {
    open spec fn spec_mmap(&self, virt_base: u64) -> Result<Seq<u8>, Error> {
        let n = self.sections().len() as int;
        let blank = Seq::new(self.headers.size_of_image as nat, |i: int| 0u8);
        let copied = self.spec_copied(blank, n);
        if !self.spec_copy_fits(self.headers.size_of_image as int, n) {
            Err(Error::Bounds)
        } else {
            match self.spec_directory_bytes(DIR_BASERELOC as int) {
                Err(e) => Err(e),
                Ok(bytes) => match relocs_from(bytes, 0, 0) {
                    Err(e) => Err(e),
                    Ok(relocs) => match rebase_fault(
                        relocs,
                        self.headers.size_of_image as int,
                        0,
                    ) {
                        Some(e) => Err(e),
                        None => Ok(
                            rebased(
                                copied,
                                relocs,
                                virt_base - self.headers.image_base,
                                relocs.len() as int,
                            ),
                        ),
                    },
                },
            }
        }
    }

    open spec fn mappable(&self) -> bool {
        self.wf()
    }

    fn mmap(&self, virt_base: u64) -> (r: Result<Vec<u8>, Error>) {
        let mut image = mm_alloc(self);
        match mm_copy(self, &mut image) {
            Ok(()) => {},
            Err(e) => {
                return Err(e);
            },
        }
        proof {
            self.lemma_copied_len(
                Seq::new(self.headers.size_of_image as nat, |i: int| 0u8),
                self.sections().len() as int,
            );
        }
        match mm_rebase(self, &mut image, virt_base) {
            Ok(()) => Ok(image),
            Err(e) => Err(e),
        }
    }
}

} // verus!
