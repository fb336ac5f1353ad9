use vstd::prelude::*;
use crate::bytes::{le_u32, read_u32};
use crate::error::Error;
use crate::exports::{Export, ExportBy, ExportView};
use crate::image::{Bitness, Image, DIR_IAT, DIR_IMPORT};

verus! {

/// The import directory: the range that holds its descriptors.
#[derive(Clone, Copy, Debug, PartialEq, Eq, Structural)]
pub struct Imports {
    pub rva: u32,
    pub size: u32,
}

/// One import descriptor: what the image takes from one module.
#[derive(Clone, Copy, Debug, PartialEq, Eq, Structural)]
pub struct Descriptor {
    /// RVA of the import name table.
    pub original_first_thunk: u32,
    pub time_date_stamp: u32,
    pub forwarder_chain: u32,
    /// RVA of the module's name.
    pub name: u32,
    /// RVA of the import address table.
    pub first_thunk: u32,
}

/// One entry of an import name table.
#[derive(Clone, Copy, Debug, PartialEq, Eq)]
pub enum Import<'a> {
    ByName { hint: u16, name: &'a [u8] },
    ByOrdinal(u16),
}

/// An import as a value.
pub enum ImportView {
    ByName { hint: u16, name: Seq<u8> },
    ByOrdinal(u16),
}

impl<'a> View for Import<'a> {
    type V = ImportView;

    open spec fn view(&self) -> ImportView {
        match *self {
            Import::ByName { hint, name } => ImportView::ByName { hint, name: name@ },
            Import::ByOrdinal(o) => ImportView::ByOrdinal(o),
        }
    }
}

impl Descriptor {
    /// The descriptor that ends the table: all of its fields are zero.
    pub open spec fn spec_is_null(&self) -> bool {
        self.original_first_thunk == 0 && self.time_date_stamp == 0 && self.forwarder_chain == 0
            && self.name == 0 && self.first_thunk == 0
    }

    /// Tells whether this is the descriptor that ends the table.
    pub fn is_null(&self) -> (r: bool)
        ensures
            r == self.spec_is_null(),
    {
        self.original_first_thunk == 0 && self.time_date_stamp == 0 && self.forwarder_chain == 0
            && self.name == 0 && self.first_thunk == 0
    }
}

/// The descriptor that the twenty bytes at `o` hold.
pub open spec fn descriptor_at(data: Seq<u8>, o: int) -> Descriptor {
    Descriptor {
        original_first_thunk: le_u32(data, o) as u32,
        time_date_stamp: le_u32(data, o + 4) as u32,
        forwarder_chain: le_u32(data, o + 8) as u32,
        name: le_u32(data, o + 12) as u32,
        first_thunk: le_u32(data, o + 16) as u32,
    }
}

/// `r` with `first` put in front of what it holds.
pub open spec fn cons<T>(first: T, r: Result<Seq<T>, Error>) -> Result<Seq<T>, Error> {
    match r {
        Ok(rest) => Ok(seq![first] + rest),
        Err(e) => Err(e),
    }
}

/// `r` with `prefix` put in front of what it holds.
pub open spec fn after<T>(prefix: Seq<T>, r: Result<Seq<T>, Error>) -> Result<Seq<T>, Error> {
    match r {
        Ok(rest) => Ok(prefix + rest),
        Err(e) => Err(e),
    }
}

/// Pushing onto the prefix is putting in front of the rest.
pub proof fn lemma_after_cons<T>(prefix: Seq<T>, first: T, r: Result<Seq<T>, Error>)
    ensures
        after(prefix, cons(first, r)) == after(prefix.push(first), r),
{
    if let Ok(rest) = r {
        assert(prefix + (seq![first] + rest) =~= prefix.push(first) + rest);
    }
}

/// Nothing in front changes nothing.
pub proof fn lemma_after_empty<T>(r: Result<Seq<T>, Error>)
    ensures
        after(Seq::empty(), r) == r,
{
    if let Ok(rest) = r {
        assert(Seq::<T>::empty() + rest =~= rest);
    }
}

impl<'a> Image<'a> {
    /// The import directory, or `Null` where the image has none.
    pub open spec fn spec_imports(&self) -> Result<Imports, Error> {
        let dir = self.headers.data_directories@[DIR_IMPORT as int];
        if dir.rva == 0 {
            Err(Error::Null)
        } else {
            Ok(Imports { rva: dir.rva, size: dir.size })
        }
    }

    /// Opens the import directory.
    pub fn imports(&self) -> (r: Result<Imports, Error>)
        requires
            self.wf(),
        ensures
            r == self.spec_imports(),
    {
        let dir = self.directory(DIR_IMPORT);
        if dir.rva == 0 {
            Err(Error::Null)
        } else {
            Ok(Imports { rva: dir.rva, size: dir.size })
        }
    }

    /// The pointer-wide number at `rva`: 32 bits in a 32-bit image, 64 bits in a 64-bit one.
    pub open spec fn spec_load_pointer(&self, rva: u32) -> Result<u64, Error> {
        match self.headers.bitness {
            Bitness::Pe32 => match self.spec_load_u32(rva) {
                Ok(v) => Ok(v as u64),
                Err(e) => Err(e),
            },
            Bitness::Pe64 => self.spec_load_u64(rva),
        }
    }

    /// Reads the pointer-wide number at `rva`.
    pub fn load_pointer(&self, rva: u32) -> (r: Result<u64, Error>)
        requires
            self.wf(),
        ensures
            r == self.spec_load_pointer(rva),
    {
        match self.headers.bitness {
            Bitness::Pe32 => match self.load_u32(rva) {
                Ok(v) => Ok(v as u64),
                Err(e) => Err(e),
            },
            Bitness::Pe64 => self.load_u64(rva),
        }
    }

    /// The least thunk that imports by ordinal: the one with only its top bit set.
    pub open spec fn spec_ordinal_flag(&self) -> u64 {
        match self.headers.bitness {
            Bitness::Pe32 => 0x8000_0000,
            Bitness::Pe64 => 0x8000_0000_0000_0000,
        }
    }

    /// What a thunk of an import name table imports.
    ///
    /// With its top bit set it imports by ordinal, the low sixteen bits. Else it is the RVA
    /// of a hint and, two bytes on, a name; what goes wrong in reading them is the fault of
    /// this thunk alone.
    pub open spec fn spec_import(&self, thunk: u64) -> Result<ImportView, Error> {
        if thunk >= self.spec_ordinal_flag() {
            Ok(ImportView::ByOrdinal((thunk % 0x1_0000) as u16))
        } else if thunk > u32::MAX - 2 {
            Err(Error::Overflow)
        } else {
            match self.spec_load_u16(thunk as u32) {
                Err(e) => Err(e),
                Ok(hint) => match self.spec_c_str((thunk + 2) as u32) {
                    Err(e) => Err(e),
                    Ok(name) => Ok(ImportView::ByName { hint, name }),
                },
            }
        }
    }

    /// Resolves a thunk of an import name table.
    pub fn import(&self, thunk: u64) -> (r: Result<Import<'a>, Error>)
        requires
            self.wf(),
        ensures
            match r {
                Ok(i) => self.spec_import(thunk) == Ok::<ImportView, Error>(i@),
                Err(e) => self.spec_import(thunk) == Err::<ImportView, Error>(e),
            },
    {
        let flag: u64 = match self.headers.bitness {
            Bitness::Pe32 => 0x8000_0000,
            Bitness::Pe64 => 0x8000_0000_0000_0000,
        };
        if thunk >= flag {
            return Ok(Import::ByOrdinal((thunk % 0x1_0000) as u16));
        }
        if thunk > (u32::MAX - 2) as u64 {
            return Err(Error::Overflow);
        }
        let hint = match self.load_u16(thunk as u32) {
            Ok(h) => h,
            Err(e) => {
                return Err(e);
            },
        };
        match self.derva_c_str(thunk as u32 + 2) {
            Ok(name) => Ok(Import::ByName { hint, name }),
            Err(e) => Err(e),
        }
    }

    /// The thunks of a table from the one at address `at` on, up to the zero thunk that
    /// ends it. A thunk that cannot be read is the fault of the table, and so is one that
    /// would lie past the 32-bit address space: `Overflow`.
    pub open spec fn spec_thunks(&self, at: int) -> Result<Seq<u64>, Error>
        decreases 0x1_0000_0008 - at,
    {
        if at < 0 || at > u32::MAX {
            Err(Error::Overflow)
        } else {
            match self.spec_load_pointer(at as u32) {
                Err(e) => Err(e),
                Ok(thunk) => if thunk == 0 {
                    Ok(Seq::empty())
                } else {
                    cons(thunk, self.spec_thunks(at + self.spec_pointer_width()))
                },
            }
        }
    }

    /// Reads the thunks of the table at `rva`, without the zero thunk that ends it.
    pub fn thunks(&self, rva: u32) -> (r: Result<Vec<u64>, Error>)
        requires
            self.wf(),
        ensures
            match r {
                Ok(v) => self.spec_thunks(rva as int) == Ok::<Seq<u64>, Error>(v@),
                Err(e) => self.spec_thunks(rva as int) == Err::<Seq<u64>, Error>(e),
            },
    {
        let width: u64 = self.pointer_width() as u64;
        let mut out: Vec<u64> = Vec::new();
        let mut at: u64 = rva as u64;
        proof {
            lemma_after_empty(self.spec_thunks(rva as int));
        }
        loop
            invariant
                self.wf(),
                width == self.spec_pointer_width(),
                at <= u32::MAX + 8,
                self.spec_thunks(rva as int) == after(out@, self.spec_thunks(at as int)),
            decreases 0x1_0000_0008 - at,
        {
            if at > u32::MAX as u64 {
                return Err(Error::Overflow);
            }
            let thunk = match self.load_pointer(at as u32) {
                Ok(t) => t,
                Err(e) => {
                    return Err(e);
                },
            };
            if thunk == 0 {
                proof {
                    assert(out@ + Seq::<u64>::empty() =~= out@);
                }
                return Ok(out);
            }
            proof {
                lemma_after_cons(out@, thunk, self.spec_thunks(at + width));
            }
            out.push(thunk);
            at = at + width;
        }
    }

    /// The import address table directory: the pointer-wide numbers that fill its range.
    pub open spec fn spec_iat(&self) -> Result<Seq<u64>, Error> {
        let dir = self.headers.data_directories@[DIR_IAT as int];
        if dir.rva == 0 {
            Err(Error::Null)
        } else {
            match self.headers.bitness {
                Bitness::Pe32 => match self.spec_u32s(dir.rva, dir.size / 4) {
                    Ok(s) => Ok(Seq::new(s.len(), |i: int| s[i] as u64)),
                    Err(e) => Err(e),
                },
                Bitness::Pe64 => self.spec_u64s(dir.rva, dir.size / 8),
            }
        }
    }

    /// Reads the import address table directory.
    pub fn iat(&self) -> (r: Result<Vec<u64>, Error>)
        requires
            self.wf(),
        ensures
            match r {
                Ok(v) => self.spec_iat() == Ok::<Seq<u64>, Error>(v@),
                Err(e) => self.spec_iat() == Err::<Seq<u64>, Error>(e),
            },
    {
        let dir = self.directory(DIR_IAT);
        if dir.rva == 0 {
            return Err(Error::Null);
        }
        match self.headers.bitness {
            Bitness::Pe32 => {
                let narrow = match self.load_u32s(dir.rva, dir.size / 4) {
                    Ok(v) => v,
                    Err(e) => {
                        return Err(e);
                    },
                };
                let n: usize = narrow.len();
                let mut out: Vec<u64> = Vec::new();
                let mut i: usize = 0;
                while i < n
                    invariant
                        i <= n,
                        n == narrow@.len(),
                        out@.len() == i,
                        forall|k: int| 0 <= k < i ==> out@[k] == narrow@[k] as u64,
                    decreases n - i,
                {
                    out.push(narrow[i] as u64);
                    i = i + 1;
                }
                assert(out@ =~= Seq::new(narrow@.len(), |i: int| narrow@[i] as u64));
                Ok(out)
            },
            Bitness::Pe64 => self.load_u64s(dir.rva, dir.size / 8),
        }
    }
}

impl Imports {
    /// What lies at place `index` of the descriptor table: a descriptor, or `None` for the
    /// null descriptor that ends the table.
    ///
    /// A place that reaches past the directory, or that cannot be read, is `Invalid`.
    pub open spec fn spec_descriptor(&self, image: &Image, index: int) -> Result<
        Option<Descriptor>,
        Error,
    > {
        if index < 0 || 20 * (index + 1) > self.size || self.rva + 20 * index > u32::MAX {
            Err(Error::Invalid)
        } else {
            match image.spec_slice((self.rva + 20 * index) as u32, 20) {
                Err(_) => Err(Error::Invalid),
                Ok(o) => if descriptor_at(image.data@, o as int).spec_is_null() {
                    Ok(None)
                } else {
                    Ok(Some(descriptor_at(image.data@, o as int)))
                },
            }
        }
    }

    /// The descriptors from place `index` on, up to the null descriptor.
    pub open spec fn spec_descriptors_from(&self, image: &Image, index: int) -> Result<
        Seq<Descriptor>,
        Error,
    >
        decreases self.size - 20 * index,
    {
        match self.spec_descriptor(image, index) {
            Err(e) => Err(e),
            Ok(None) => Ok(Seq::empty()),
            Ok(Some(d)) => cons(d, self.spec_descriptors_from(image, index + 1)),
        }
    }

    /// Reads the descriptor at place `index` of the table.
    pub fn descriptor(&self, image: &Image, index: u32) -> (r: Result<Option<Descriptor>, Error>)
        requires
            image.wf(),
        ensures
            r == self.spec_descriptor(image, index as int),
    {
        if (index as u64 + 1) * 20 > self.size as u64 || self.rva as u64 + 20 * (index as u64)
            > u32::MAX as u64 {
            return Err(Error::Invalid);
        }
        let o = match image.slice_at(self.rva + 20 * index, 20) {
            Ok(o) => o,
            Err(_) => {
                return Err(Error::Invalid);
            },
        };
        let d = Descriptor {
            original_first_thunk: read_u32(image.data, o),
            time_date_stamp: read_u32(image.data, o + 4),
            forwarder_chain: read_u32(image.data, o + 8),
            name: read_u32(image.data, o + 12),
            first_thunk: read_u32(image.data, o + 16),
        };
        if d.is_null() {
            Ok(None)
        } else {
            Ok(Some(d))
        }
    }

    /// Reads every descriptor of the table, in order.
    pub fn descriptors(&self, image: &Image) -> (r: Result<Vec<Descriptor>, Error>)
        requires
            image.wf(),
        ensures
            match r {
                Ok(v) => self.spec_descriptors_from(image, 0) == Ok::<Seq<Descriptor>, Error>(v@),
                Err(e) => self.spec_descriptors_from(image, 0) == Err::<Seq<Descriptor>, Error>(e),
            },
    {
        let mut out: Vec<Descriptor> = Vec::new();
        let mut index: u32 = 0;
        proof {
            lemma_after_empty(self.spec_descriptors_from(image, 0));
        }
        loop
            invariant
                image.wf(),
                20 * index <= self.size,
                self.spec_descriptors_from(image, 0) == after(
                    out@,
                    self.spec_descriptors_from(image, index as int),
                ),
            decreases self.size - 20 * index,
        {
            match self.descriptor(image, index) {
                Err(e) => {
                    return Err(e);
                },
                Ok(None) => {
                    proof {
                        assert(out@ + Seq::<Descriptor>::empty() =~= out@);
                    }
                    return Ok(out);
                },
                Ok(Some(d)) => {
                    proof {
                        lemma_after_cons(out@, d, self.spec_descriptors_from(image, index + 1));
                    }
                    out.push(d);
                    index = index + 1;
                },
            }
        }
    }
}

impl Descriptor {
    /// The name of the module the descriptor imports from.
    pub fn dll_name<'a>(&self, image: &Image<'a>) -> (r: Result<&'a [u8], Error>)
        requires
            image.wf(),
        ensures
            match r {
                Ok(bytes) => image.spec_c_str(self.name) == Ok::<Seq<u8>, Error>(bytes@),
                Err(e) => image.spec_c_str(self.name) == Err::<Seq<u8>, Error>(e),
            },
    {
        image.derva_c_str(self.name)
    }

    /// The thunks of the import name table.
    pub fn name_table(&self, image: &Image) -> (r: Result<Vec<u64>, Error>)
        requires
            image.wf(),
        ensures
            match r {
                Ok(v) => image.spec_thunks(self.original_first_thunk as int) == Ok::<
                    Seq<u64>,
                    Error,
                >(v@),
                Err(e) => image.spec_thunks(self.original_first_thunk as int) == Err::<
                    Seq<u64>,
                    Error,
                >(e),
            },
    {
        image.thunks(self.original_first_thunk)
    }

    /// The thunks of the import address table.
    pub fn address_table(&self, image: &Image) -> (r: Result<Vec<u64>, Error>)
        requires
            image.wf(),
        ensures
            match r {
                Ok(v) => image.spec_thunks(self.first_thunk as int) == Ok::<Seq<u64>, Error>(v@),
                Err(e) => image.spec_thunks(self.first_thunk as int) == Err::<Seq<u64>, Error>(e),
            },
    {
        image.thunks(self.first_thunk)
    }
}

impl<'a, 'b> ExportBy<'a, 'b> {
    /// The export that satisfies an import: by its name, or by its ordinal.
    pub open spec fn spec_import(&self, import: ImportView) -> Result<ExportView, Error> {
        match import {
            ImportView::ByName { hint, name } => self.spec_symbol(name),
            ImportView::ByOrdinal(ordinal) => self.spec_ordinal(ordinal),
        }
    }

    /// Looks up the export that satisfies an import.
    pub fn import(&self, import: &Import) -> (r: Result<Export<'a>, Error>)
        requires
            self.wf(),
        ensures
            match r {
                Ok(e) => self.spec_import(import@) == Ok::<ExportView, Error>(e@),
                Err(e) => self.spec_import(import@) == Err::<ExportView, Error>(e),
            },
    {
        match import {
            Import::ByName { hint, name } => self.symbol(name),
            Import::ByOrdinal(ordinal) => self.ordinal(*ordinal),
        }
    }
}

/// An import as a value of its own, or the fault of its thunk.
#[derive(Clone, Debug, PartialEq, Eq)]
pub enum Imported {
    ByName { hint: u16, name: Vec<u8> },
    ByOrdinal(u16),
    Bad(Error),
}

impl Imported {
    /// What the entry stands for: an import, or the fault of its thunk.
    pub open spec fn as_result(&self) -> Result<ImportView, Error> {
        match *self {
            Imported::ByName { hint, name } => Ok(ImportView::ByName { hint, name: name@ }),
            Imported::ByOrdinal(o) => Ok(ImportView::ByOrdinal(o)),
            Imported::Bad(e) => Err(e),
        }
    }
}

/// What the image takes from one module, read out whole.
#[derive(Clone, Debug, PartialEq, Eq)]
pub struct ImportModule {
    pub descriptor: Descriptor,
    pub dll_name: Vec<u8>,
    /// One entry for each thunk of the import name table, in order.
    pub imports: Vec<Imported>,
}

impl<'a> Image<'a> {
    /// Whether the module's name and its import name table can be read.
    pub open spec fn spec_module_ok(&self, d: Descriptor) -> bool {
        self.spec_c_str(d.name) is Ok && self.spec_thunks(d.original_first_thunk as int) is Ok
    }

    /// Whether the name or the name table of one of the descriptors cannot be read.
    pub open spec fn spec_some_module_bad(&self, descriptors: Seq<Descriptor>) -> bool {
        exists|k: int| 0 <= k < descriptors.len() && !self.spec_module_ok(#[trigger] descriptors[k])
    }

    /// Whether the descriptor `d` can be read and `m` is what it imports.
    pub open spec fn spec_module_matches(&self, d: Descriptor, m: ImportModule) -> bool {
        let thunks = self.spec_thunks(d.original_first_thunk as int)->Ok_0;
        &&& self.spec_module_ok(d)
        &&& m.descriptor == d
        &&& Ok::<Seq<u8>, Error>(m.dll_name@) == self.spec_c_str(d.name)
        &&& m.imports@.len() == thunks.len()
        &&& forall|j: int|
            0 <= j < thunks.len() ==> (#[trigger] m.imports@[j]).as_result() == self.spec_import(
                thunks[j],
            )
    }

    /// Reads what one descriptor imports: `Invalid` where its name or its name table
    /// cannot be read; a thunk that cannot be resolved is an entry of its own.
    pub fn import_module(&self, d: &Descriptor) -> (r: Result<ImportModule, Error>)
        requires
            self.wf(),
        ensures
            match r {
                Ok(m) => self.spec_module_matches(*d, m),
                Err(e) => e == Error::Invalid && !self.spec_module_ok(*d),
            },
    {
        let dll_name = match d.dll_name(self) {
            Ok(s) => vstd::slice::slice_to_vec(s),
            Err(_) => {
                return Err(Error::Invalid);
            },
        };
        let thunks = match d.name_table(self) {
            Ok(v) => v,
            Err(_) => {
                return Err(Error::Invalid);
            },
        };
        let n: usize = thunks.len();
        let mut imports: Vec<Imported> = Vec::new();
        let mut j: usize = 0;
        while j < n
            invariant
                j <= n,
                n == thunks@.len(),
                self.wf(),
                imports@.len() == j,
                forall|k: int|
                    0 <= k < j ==> (#[trigger] imports@[k]).as_result() == self.spec_import(
                        thunks@[k],
                    ),
            decreases n - j,
        {
            let entry = match self.import(thunks[j]) {
                Ok(Import::ByName { hint, name }) => Imported::ByName {
                    hint,
                    name: vstd::slice::slice_to_vec(name),
                },
                Ok(Import::ByOrdinal(o)) => Imported::ByOrdinal(o),
                Err(e) => Imported::Bad(e),
            };
            imports.push(entry);
            j = j + 1;
        }
        Ok(ImportModule { descriptor: *d, dll_name, imports })
    }

    /// Whether `r` is what reading the import directory out whole gives.
    pub open spec fn spec_import_modules_are(&self, r: Result<Vec<ImportModule>, Error>) -> bool {
        match self.spec_imports() {
            Err(e) => r == Err::<Vec<ImportModule>, Error>(e),
            Ok(imports) => match imports.spec_descriptors_from(self, 0) {
                Err(e) => r == Err::<Vec<ImportModule>, Error>(e),
                Ok(descriptors) => match r {
                    Ok(v) => {
                        &&& v@.len() == descriptors.len()
                        &&& forall|k: int|
                            0 <= k < v@.len() ==> self.spec_module_matches(
                                descriptors[k],
                                #[trigger] v@[k],
                            )
                    },
                    Err(e) => e == Error::Invalid && self.spec_some_module_bad(descriptors),
                },
            },
        }
    }

    /// Reads the import directory out whole: every module with what is taken from it.
    ///
    /// It fails with the fault of the directory or of its descriptor table, else with
    /// `Invalid` where the name or the name table of a descriptor cannot be read.
    pub fn import_modules(&self) -> (r: Result<Vec<ImportModule>, Error>)
        requires
            self.wf(),
        ensures
            self.spec_import_modules_are(r),
    {
        let imports = match self.imports() {
            Ok(i) => i,
            Err(e) => {
                return Err(e);
            },
        };
        let descriptors = match imports.descriptors(self) {
            Ok(v) => v,
            Err(e) => {
                return Err(e);
            },
        };
        let n: usize = descriptors.len();
        let mut out: Vec<ImportModule> = Vec::new();
        let mut k: usize = 0;
        while k < n
            invariant
                k <= n,
                n == descriptors@.len(),
                self.wf(),
                self.spec_imports() == Ok::<Imports, Error>(imports),
                imports.spec_descriptors_from(self, 0) == Ok::<Seq<Descriptor>, Error>(
                    descriptors@,
                ),
                out@.len() == k,
                forall|i: int|
                    0 <= i < k ==> self.spec_module_matches(descriptors@[i], #[trigger] out@[i]),
            decreases n - k,
        {
            match self.import_module(&descriptors[k]) {
                Ok(m) => {
                    out.push(m);
                },
                Err(e) => {
                    assert(!self.spec_module_ok(descriptors@[k as int]));
                    assert(self.spec_some_module_bad(descriptors@));
                    return Err(e);
                },
            }
            k = k + 1;
        }
        Ok(out)
    }
}

} // verus!
