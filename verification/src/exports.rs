use vstd::prelude::*;
use crate::bytes::{le_u16, le_u32, read_u16, read_u32};
use crate::error::Error;
use crate::image::{Image, DIR_EXPORT};
use crate::order::{
    ascending, is_ascending, lemma_lex_irreflexive, lemma_lex_le_le, lemma_lex_le_lt,
    lemma_lex_total, lemma_lex_transitive, lex_lt, order, Order,
};

verus! {

/// The export directory's header, with the range the directory spans.
#[derive(Clone, Copy, Debug, PartialEq, Eq, Structural)]
pub struct Exports {
    pub rva: u32,
    pub size: u32,
    pub characteristics: u32,
    pub time_date_stamp: u32,
    pub major_version: u16,
    pub minor_version: u16,
    pub name: u32,
    pub base: u32,
    pub number_of_functions: u32,
    pub number_of_names: u32,
    pub address_of_functions: u32,
    pub address_of_names: u32,
    pub address_of_name_ordinals: u32,
}

/// What an export stands for.
#[derive(Clone, Copy, Debug, PartialEq, Eq)]
pub enum Export<'a> {
    /// The RVA of the exported code or data.
    Symbol(u32),
    /// The export is that of another module, named as `module.symbol` or `module.#ordinal`.
    Forward(&'a [u8]),
}

/// An export as a value.
pub enum ExportView {
    Symbol(u32),
    Forward(Seq<u8>),
}

impl<'a> View for Export<'a> {
    type V = ExportView;

    open spec fn view(&self) -> ExportView {
        match *self {
            Export::Symbol(rva) => ExportView::Symbol(rva),
            Export::Forward(s) => ExportView::Forward(s@),
        }
    }
}

/// The tables of the export directory, read out for lookups by name and by ordinal.
#[derive(Clone, Debug)]
pub struct ExportBy<'a, 'b> {
    pub image: &'b Image<'a>,
    pub exports: Exports,
    /// The RVA of each exported function, by index.
    pub functions: Vec<u32>,
    /// The exported names.
    pub names: Vec<&'a [u8]>,
    /// For each name, the index of its function.
    pub name_indices: Vec<u16>,
    /// Whether the names ascend, as the format demands. Where they do not, lookups by name
    /// fall back to a scan from the first name on.
    pub sorted: bool,
}

/// The first of the names from `from` on that equals `name`.
pub open spec fn first_named(names: Seq<&[u8]>, name: Seq<u8>, from: int) -> Option<int>
    decreases names.len() - from,
{
    if from < 0 || from >= names.len() {
        None
    } else if names[from]@ == name {
        Some(from)
    } else {
        first_named(names, name, from + 1)
    }
}

/// If none of the names from `from` up to `i` equals `name`, the search may start at `i`.
pub proof fn lemma_first_named_skip(names: Seq<&[u8]>, name: Seq<u8>, from: int, i: int)
    requires
        0 <= from <= i <= names.len(),
        forall|k: int| from <= k < i ==> (#[trigger] names[k])@ != name,
    ensures
        first_named(names, name, from) == first_named(names, name, i),
    decreases i - from,
{
    if from < i {
        lemma_first_named_skip(names, name, from + 1, i);
    }
}

/// Whether the string holds a dot.
pub open spec fn has_dot(s: Seq<u8>) -> bool {
    exists|k: int| 0 <= k < s.len() && s[k] == 0x2E
}

fn holds_dot(s: &[u8]) -> (r: bool)
    ensures
        r == has_dot(s@),
{
    let n: usize = s.len();
    let mut i: usize = 0;
    while i < n
        invariant
            i <= n,
            n == s@.len(),
            forall|k: int| 0 <= k < i ==> s@[k] != 0x2E,
        decreases n - i,
    {
        if s[i] == 0x2E {
            return true;
        }
        i = i + 1;
    }
    false
}

impl<'a> Image<'a> {
    /// The export directory's header: `Null` where the image has none, `Invalid` where the
    /// directory is too small to hold it.
    pub open spec fn spec_exports(&self) -> Result<Exports, Error> {
        let dir = self.headers.data_directories@[DIR_EXPORT as int];
        if dir.rva == 0 {
            Err(Error::Null)
        } else if dir.size < 40 {
            Err(Error::Invalid)
        } else {
            match self.spec_slice(dir.rva, 40) {
                Err(e) => Err(e),
                Ok(o) => Ok(
                    Exports {
                        rva: dir.rva,
                        size: dir.size,
                        characteristics: le_u32(self.data@, o + 0) as u32,
                        time_date_stamp: le_u32(self.data@, o + 4) as u32,
                        major_version: le_u16(self.data@, o + 8) as u16,
                        minor_version: le_u16(self.data@, o + 10) as u16,
                        name: le_u32(self.data@, o + 12) as u32,
                        base: le_u32(self.data@, o + 16) as u32,
                        number_of_functions: le_u32(self.data@, o + 20) as u32,
                        number_of_names: le_u32(self.data@, o + 24) as u32,
                        address_of_functions: le_u32(self.data@, o + 28) as u32,
                        address_of_names: le_u32(self.data@, o + 32) as u32,
                        address_of_name_ordinals: le_u32(self.data@, o + 36) as u32,
                    },
                ),
            }
        }
    }

    /// Reads the export directory's header.
    pub fn exports(&self) -> (r: Result<Exports, Error>)
        requires
            self.wf(),
        ensures
            r == self.spec_exports(),
    {
        let dir = self.directory(DIR_EXPORT);
        if dir.rva == 0 {
            return Err(Error::Null);
        }
        if dir.size < 40 {
            return Err(Error::Invalid);
        }
        let o = match self.slice_at(dir.rva, 40) {
            Ok(o) => o,
            Err(e) => {
                return Err(e);
            },
        };
        Ok(
            Exports {
                rva: dir.rva,
                size: dir.size,
                characteristics: read_u32(self.data, o),
                time_date_stamp: read_u32(self.data, o + 4),
                major_version: read_u16(self.data, o + 8),
                minor_version: read_u16(self.data, o + 10),
                name: read_u32(self.data, o + 12),
                base: read_u32(self.data, o + 16),
                number_of_functions: read_u32(self.data, o + 20),
                number_of_names: read_u32(self.data, o + 24),
                address_of_functions: read_u32(self.data, o + 28),
                address_of_names: read_u32(self.data, o + 32),
                address_of_name_ordinals: read_u32(self.data, o + 36),
            },
        )
    }

    /// What the function at `rva` of the export directory `header` stands for.
    ///
    /// An RVA inside the export directory is a forwarder: the C string there, which must
    /// hold a dot, else `Invalid`. Any other RVA is a symbol.
    pub open spec fn spec_export_of(&self, header: Exports, rva: u32) -> Result<
        ExportView,
        Error,
    > {
        if header.spec_encloses(rva) {
            match self.spec_c_str(rva) {
                Ok(s) => if has_dot(s) {
                    Ok(ExportView::Forward(s))
                } else {
                    Err(Error::Invalid)
                },
                Err(_) => Err(Error::Invalid),
            }
        } else {
            Ok(ExportView::Symbol(rva))
        }
    }

    /// Tells what the function at `rva` of the export directory `header` stands for.
    pub fn export_of(&self, header: &Exports, rva: u32) -> (r: Result<Export<'a>, Error>)
        requires
            self.wf(),
        ensures
            match r {
                Ok(e) => self.spec_export_of(*header, rva) == Ok::<ExportView, Error>(e@),
                Err(e) => self.spec_export_of(*header, rva) == Err::<ExportView, Error>(e),
            },
    {
        if header.encloses(rva) {
            match self.derva_c_str(rva) {
                Ok(s) => if holds_dot(s) {
                    Ok(Export::Forward(s))
                } else {
                    Err(Error::Invalid)
                },
                Err(_) => Err(Error::Invalid),
            }
        } else {
            Ok(Export::Symbol(rva))
        }
    }

    /// Whether every one of the RVAs names a C string.
    pub open spec fn spec_all_c_strs(&self, rvas: Seq<u32>) -> bool {
        forall|i: int| 0 <= i < rvas.len() ==> (#[trigger] self.spec_c_str(rvas[i])) is Ok
    }
}

impl Exports {
    /// Whether `rva` lies inside the export directory, as that of a forwarder does.
    pub open spec fn spec_encloses(&self, rva: u32) -> bool {
        self.rva <= rva && rva - self.rva < self.size
    }

    /// Tells whether `rva` lies inside the export directory.
    pub fn encloses(&self, rva: u32) -> (r: bool)
        ensures
            r == self.spec_encloses(rva),
    {
        self.rva <= rva && rva - self.rva < self.size
    }

    /// The name the module gives itself.
    pub fn dll_name<'a>(&self, image: &Image<'a>) -> (r: Result<&'a [u8], Error>)
        requires
            image.wf(),
        ensures
            match r {
                Ok(bytes) => image.spec_c_str(self.name) == Ok::<Seq<u8>, Error>(bytes@),
                Err(e) => image.spec_c_str(self.name) == Err::<Seq<u8>, Error>(e),
            },
    {
        image.derva_c_str(self.name)
    }

    /// The RVA of each exported function, by index.
    pub fn functions(&self, image: &Image) -> (r: Result<Vec<u32>, Error>)
        requires
            image.wf(),
        ensures
            match r {
                Ok(v) => image.spec_u32s(self.address_of_functions, self.number_of_functions)
                    == Ok::<Seq<u32>, Error>(v@),
                Err(e) => image.spec_u32s(self.address_of_functions, self.number_of_functions)
                    == Err::<Seq<u32>, Error>(e),
            },
    {
        image.load_u32s(self.address_of_functions, self.number_of_functions)
    }

    /// The RVA of each exported name.
    pub fn names(&self, image: &Image) -> (r: Result<Vec<u32>, Error>)
        requires
            image.wf(),
        ensures
            match r {
                Ok(v) => image.spec_u32s(self.address_of_names, self.number_of_names) == Ok::<
                    Seq<u32>,
                    Error,
                >(v@),
                Err(e) => image.spec_u32s(self.address_of_names, self.number_of_names) == Err::<
                    Seq<u32>,
                    Error,
                >(e),
            },
    {
        image.load_u32s(self.address_of_names, self.number_of_names)
    }

    /// For each exported name, the index of its function.
    pub fn name_indices(&self, image: &Image) -> (r: Result<Vec<u16>, Error>)
        requires
            image.wf(),
        ensures
            match r {
                Ok(v) => image.spec_u16s(self.address_of_name_ordinals, self.number_of_names)
                    == Ok::<Seq<u16>, Error>(v@),
                Err(e) => image.spec_u16s(self.address_of_name_ordinals, self.number_of_names)
                    == Err::<Seq<u16>, Error>(e),
            },
    {
        image.load_u16s(self.address_of_name_ordinals, self.number_of_names)
    }

    /// Why the tables cannot be read out for lookups, if they cannot: the fault of the first of
    /// the function table, the name table and the index table that has one, else `Invalid`
    /// where an entry of the name table names no C string.
    pub open spec fn spec_by_error(&self, image: &Image) -> Option<Error> {
        let functions = image.spec_u32s(self.address_of_functions, self.number_of_functions);
        let names = image.spec_u32s(self.address_of_names, self.number_of_names);
        let indices = image.spec_u16s(self.address_of_name_ordinals, self.number_of_names);
        if functions is Err {
            Some(functions->Err_0)
        } else if names is Err {
            Some(names->Err_0)
        } else if indices is Err {
            Some(indices->Err_0)
        } else if !image.spec_all_c_strs(names->Ok_0) {
            Some(Error::Invalid)
        } else {
            None
        }
    }

    /// Reads the tables out for lookups by name and by ordinal.
    pub fn by<'a, 'b>(&self, image: &'b Image<'a>) -> (r: Result<ExportBy<'a, 'b>, Error>)
        requires
            image.wf(),
        ensures
            match r {
                Ok(by) => {
                    &&& self.spec_by_error(image) is None
                    &&& by.wf()
                    &&& by.image == image
                    &&& by.exports == *self
                    &&& Ok::<Seq<u32>, Error>(by.functions@) == image.spec_u32s(
                        self.address_of_functions,
                        self.number_of_functions,
                    )
                    &&& Ok::<Seq<u16>, Error>(by.name_indices@) == image.spec_u16s(
                        self.address_of_name_ordinals,
                        self.number_of_names,
                    )
                    &&& by.names@.len() == self.number_of_names
                    &&& forall|i: int|
                        0 <= i < by.names@.len() ==> Ok::<Seq<u8>, Error>(
                            (#[trigger] by.names@[i])@,
                        ) == image.spec_c_str(
                            image.spec_u32s(self.address_of_names, self.number_of_names)->Ok_0[i],
                        )
                },
                Err(e) => self.spec_by_error(image) == Some(e),
            },
    {
        self.tables(image)
    }

    fn tables<'a, 'b>(&self, image: &'b Image<'a>) -> (r: Result<ExportBy<'a, 'b>, Error>)
        requires
            image.wf(),
        ensures
            match r {
                Ok(by) => {
                    &&& self.spec_by_error(image) is None
                    &&& by.wf()
                    &&& by.image == image
                    &&& by.exports == *self
                    &&& Ok::<Seq<u32>, Error>(by.functions@) == image.spec_u32s(
                        self.address_of_functions,
                        self.number_of_functions,
                    )
                    &&& Ok::<Seq<u16>, Error>(by.name_indices@) == image.spec_u16s(
                        self.address_of_name_ordinals,
                        self.number_of_names,
                    )
                    &&& by.names@.len() == self.number_of_names
                    &&& forall|i: int|
                        0 <= i < by.names@.len() ==> Ok::<Seq<u8>, Error>(
                            (#[trigger] by.names@[i])@,
                        ) == image.spec_c_str(
                            image.spec_u32s(self.address_of_names, self.number_of_names)->Ok_0[i],
                        )
                },
                Err(e) => self.spec_by_error(image) == Some(e),
            },
    {
        let functions = match self.functions(image) {
            Ok(v) => v,
            Err(e) => {
                return Err(e);
            },
        };
        let name_rvas = match self.names(image) {
            Ok(v) => v,
            Err(e) => {
                return Err(e);
            },
        };
        let name_indices = match self.name_indices(image) {
            Ok(v) => v,
            Err(e) => {
                return Err(e);
            },
        };
        let n: usize = name_rvas.len();
        let mut names: Vec<&'a [u8]> = Vec::new();
        let mut i: usize = 0;
        while i < n
            invariant
                i <= n,
                n == name_rvas@.len(),
                image.wf(),
                image.spec_u32s(self.address_of_functions, self.number_of_functions) is Ok,
                image.spec_u32s(self.address_of_names, self.number_of_names) == Ok::<
                    Seq<u32>,
                    Error,
                >(name_rvas@),
                image.spec_u16s(self.address_of_name_ordinals, self.number_of_names) is Ok,
                names@.len() == i,
                forall|k: int|
                    0 <= k < i ==> Ok::<Seq<u8>, Error>((#[trigger] names@[k])@)
                        == image.spec_c_str(name_rvas@[k]),
            decreases n - i,
        {
            match image.derva_c_str(name_rvas[i]) {
                Ok(s) => {
                    names.push(s);
                },
                Err(_) => {
                    assert(image.spec_c_str(name_rvas@[i as int]) is Err);
                    return Err(Error::Invalid);
                },
            }
            i = i + 1;
        }
        assert(image.spec_all_c_strs(name_rvas@)) by {
            assert forall|k: int| 0 <= k < name_rvas@.len() implies (#[trigger] image.spec_c_str(
                name_rvas@[k],
            )) is Ok by {
                assert(Ok::<Seq<u8>, Error>(names@[k]@) == image.spec_c_str(name_rvas@[k]));
            }
        }
        let sorted = is_ascending(&names);
        Ok(ExportBy { image, exports: *self, functions, names, name_indices, sorted })
    }
}

impl<'a, 'b> ExportBy<'a, 'b> {
    /// The invariant of the index: one function index per name, and `sorted` says whether
    /// the names ascend.
    pub open spec fn wf(&self) -> bool {
        &&& self.image.wf()
        &&& self.names@.len() == self.name_indices@.len()
        &&& self.sorted == ascending(self.names@)
    }

    /// The export whose function has the given index in the function table.
    ///
    /// An index past the table is `Invalid`. A function RVA inside the export directory is a
    /// forwarder: the C string there, which must hold a dot, else `Invalid`.
    pub open spec fn spec_export_at(&self, index: int) -> Result<ExportView, Error> {
        if index < 0 || index >= self.functions@.len() {
            Err(Error::Invalid)
        } else {
            self.image.spec_export_of(self.exports, self.functions@[index])
        }
    }

    /// The export with the given ordinal: the function at index `ordinal - base`.
    pub open spec fn spec_ordinal(&self, ordinal: u16) -> Result<ExportView, Error> {
        self.spec_export_at(ordinal - self.exports.base)
    }

    /// The export with the given name: the function that the first name equal to it points
    /// to. A name that is not exported is `Invalid`.
    pub open spec fn spec_symbol(&self, name: Seq<u8>) -> Result<ExportView, Error> {
        match first_named(self.names@, name, 0) {
            Some(i) => self.spec_export_at(self.name_indices@[i] as int),
            None => Err(Error::Invalid),
        }
    }

    /// Looks an export up by its index in the function table.
    pub fn at(&self, index: usize) -> (r: Result<Export<'a>, Error>)
        requires
            self.wf(),
        ensures
            match r {
                Ok(e) => self.spec_export_at(index as int) == Ok::<ExportView, Error>(e@),
                Err(e) => self.spec_export_at(index as int) == Err::<ExportView, Error>(e),
            },
    {
        if index >= self.functions.len() {
            return Err(Error::Invalid);
        }
        self.image.export_of(&self.exports, self.functions[index])
    }

    /// Looks an export up by its ordinal.
    pub fn ordinal(&self, ordinal: u16) -> (r: Result<Export<'a>, Error>)
        requires
            self.wf(),
        ensures
            match r {
                Ok(e) => self.spec_ordinal(ordinal) == Ok::<ExportView, Error>(e@),
                Err(e) => self.spec_ordinal(ordinal) == Err::<ExportView, Error>(e),
            },
    {
        if (ordinal as u32) < self.exports.base {
            return Err(Error::Invalid);
        }
        self.at((ordinal as u32 - self.exports.base) as usize)
    }

    /// Finds the first name equal to `name` by walking the names in table order.
    pub fn scan(&self, name: &[u8]) -> (r: Option<usize>)
        ensures
            match r {
                Some(i) => first_named(self.names@, name@, 0) == Some(i as int),
                None => first_named(self.names@, name@, 0) is None,
            },
    {
        let n: usize = self.names.len();
        let mut i: usize = 0;
        while i < n
            invariant
                i <= n,
                n == self.names@.len(),
                first_named(self.names@, name@, 0) == first_named(self.names@, name@, i as int),
            decreases n - i,
        {
            if let Order::Equal = order(self.names[i], name) {
                return Some(i);
            }
            i = i + 1;
        }
        None
    }

    /// Finds the first name equal to `name` by bisection, which needs the names to ascend.
    pub fn search(&self, name: &[u8]) -> (r: Option<usize>)
        requires
            ascending(self.names@),
        ensures
            match r {
                Some(i) => first_named(self.names@, name@, 0) == Some(i as int),
                None => first_named(self.names@, name@, 0) is None,
            },
    {
        let n: usize = self.names.len();
        let mut lo: usize = 0;
        let mut hi: usize = n;
        while lo < hi
            invariant
                lo <= hi <= n,
                n == self.names@.len(),
                ascending(self.names@),
                forall|k: int| 0 <= k < lo ==> lex_lt((#[trigger] self.names@[k])@, name@),
                forall|k: int| hi <= k < n ==> !lex_lt((#[trigger] self.names@[k])@, name@),
            decreases hi - lo,
        {
            let mid: usize = lo + (hi - lo) / 2;
            if let Order::Less = order(self.names[mid], name) {
                proof {
                    assert forall|k: int| 0 <= k < mid + 1 implies lex_lt(
                        (#[trigger] self.names@[k])@,
                        name@,
                    ) by {
                        assert(!lex_lt(self.names@[mid as int]@, self.names@[k]@));
                        lemma_lex_le_lt(self.names@[k]@, self.names@[mid as int]@, name@);
                    }
                }
                lo = mid + 1;
            } else {
                proof {
                    assert forall|k: int| mid <= k < n implies !lex_lt(
                        (#[trigger] self.names@[k])@,
                        name@,
                    ) by {
                        assert(!lex_lt(self.names@[k]@, self.names@[mid as int]@));
                        lemma_lex_le_le(name@, self.names@[mid as int]@, self.names@[k]@);
                    }
                }
                hi = mid;
            }
        }
        proof {
            assert forall|k: int| 0 <= k < lo implies (#[trigger] self.names@[k])@ != name@ by {
                lemma_lex_irreflexive(name@);
            }
            lemma_first_named_skip(self.names@, name@, 0, lo as int);
        }
        if lo < n {
            if let Order::Equal = order(self.names[lo], name) {
                return Some(lo);
            }
            proof {
                // The name at `lo` comes after `name`, and so does every later one.
                let at_lo = self.names@[lo as int]@;
                if !lex_lt(name@, at_lo) {
                    lemma_lex_total(name@, at_lo, 0);
                }
                assert forall|k: int| lo <= k < n implies (#[trigger] self.names@[k])@
                    != name@ by {
                    let later = self.names@[k]@;
                    assert(!lex_lt(later, at_lo));
                    if later == name@ {
                        lemma_lex_irreflexive(name@);
                        if lex_lt(at_lo, later) {
                            lemma_lex_transitive(name@, at_lo, later, 0);
                        } else {
                            lemma_lex_total(at_lo, later, 0);
                        }
                    }
                }
                lemma_first_named_skip(self.names@, name@, lo as int, n as int);
            }
        }
        None
    }

    /// Looks an export up by its name, by bisection where the names ascend and by a scan
    /// where they do not.
    pub fn symbol(&self, name: &[u8]) -> (r: Result<Export<'a>, Error>)
        requires
            self.wf(),
        ensures
            match r {
                Ok(e) => self.spec_symbol(name@) == Ok::<ExportView, Error>(e@),
                Err(e) => self.spec_symbol(name@) == Err::<ExportView, Error>(e),
            },
    {
        let found = if self.sorted {
            self.search(name)
        } else {
            self.scan(name)
        };
        match found {
            Some(i) => {
                proof {
                    crate::exports::lemma_first_named(self.names@, name@, 0);
                }
                self.at(self.name_indices[i] as usize)
            },
            None => Err(Error::Invalid),
        }
    }

    /// Whatever symbol a name resolves to, some ordinal resolves to the same symbol, provided
    /// the ordinal of its function fits in sixteen bits.
    pub proof fn lemma_symbol_has_ordinal(&self, name: Seq<u8>, rva: u32)
        requires
            self.wf(),
            self.spec_symbol(name) == Ok::<ExportView, Error>(ExportView::Symbol(rva)),
            self.exports.base + self.name_indices@[first_named(self.names@, name, 0)->Some_0]
                <= u16::MAX,
        ensures
            exists|ordinal: u16|
                self.spec_ordinal(ordinal) == Ok::<ExportView, Error>(ExportView::Symbol(rva)),
    {
        let i = first_named(self.names@, name, 0)->Some_0;
        let ordinal = (self.exports.base + self.name_indices@[i]) as u16;
        assert(self.spec_ordinal(ordinal) == self.spec_export_at(self.name_indices@[i] as int));
    }
}

/// What `first_named` finds lies within the names at or after `from`, and equals `name`.
pub proof fn lemma_first_named(names: Seq<&[u8]>, name: Seq<u8>, from: int)
    requires
        0 <= from,
    ensures
        first_named(names, name, from) matches Some(i) ==> from <= i < names.len() && names[i]@
            == name,
    decreases names.len() - from,
{
    if from < names.len() && names[from]@ != name {
        lemma_first_named(names, name, from + 1);
    }
}

/// What an export stands for, as a value of its own, or the fault of its entry.
#[derive(Clone, Debug, PartialEq, Eq)]
pub enum Exported {
    /// The RVA of the exported code or data.
    Symbol(u32),
    /// The export is that of another module, named as `module.symbol` or `module.#ordinal`.
    Forward(Vec<u8>),
    /// The entry is a forwarder that cannot be read.
    Bad(Error),
}

impl Exported {
    /// What the entry stands for: an export, or the fault of its entry.
    pub open spec fn as_result(&self) -> Result<ExportView, Error> {
        match *self {
            Exported::Symbol(rva) => Ok(ExportView::Symbol(rva)),
            Exported::Forward(s) => Ok(ExportView::Forward(s@)),
            Exported::Bad(e) => Err(e),
        }
    }
}

/// The export directory read out whole, as values of its own.
#[derive(Clone, Debug, PartialEq, Eq)]
pub struct ExportTable {
    pub header: Exports,
    pub dll_name: Vec<u8>,
    /// The RVA of each exported function, by index.
    pub functions: Vec<u32>,
    /// What each function stands for, by index: a symbol, or a forwarder with its target.
    pub exports: Vec<Exported>,
    pub names: Vec<Vec<u8>>,
    /// For each name, the index of its function.
    pub name_indices: Vec<u16>,
}

impl<'a> Image<'a> {
    /// Whether `r` is what reading the export directory out whole gives: the fault of the
    /// header, else of the module's name, else of the tables, else the table.
    pub open spec fn spec_export_table_is(&self, r: Result<ExportTable, Error>) -> bool {
        match self.spec_exports() {
            Err(e) => r == Err::<ExportTable, Error>(e),
            Ok(header) => match self.spec_c_str(header.name) {
                Err(e) => r == Err::<ExportTable, Error>(e),
                Ok(dll_name) => match header.spec_by_error(self) {
                    Some(e) => r == Err::<ExportTable, Error>(e),
                    None => {
                        &&& r matches Ok(table)
                        &&& table.header == header
                        &&& table.dll_name@ == dll_name
                        &&& Ok::<Seq<u32>, Error>(table.functions@) == self.spec_u32s(
                            header.address_of_functions,
                            header.number_of_functions,
                        )
                        &&& table.exports@.len() == table.functions@.len()
                        &&& forall|i: int|
                            0 <= i < table.exports@.len() ==> (
                            #[trigger] table.exports@[i]).as_result() == self.spec_export_of(
                                header,
                                table.functions@[i],
                            )
                        &&& Ok::<Seq<u16>, Error>(table.name_indices@) == self.spec_u16s(
                            header.address_of_name_ordinals,
                            header.number_of_names,
                        )
                        &&& table.names@.len() == header.number_of_names
                        &&& forall|i: int|
                            0 <= i < table.names@.len() ==> Ok::<Seq<u8>, Error>(
                                (#[trigger] table.names@[i])@,
                            ) == self.spec_c_str(
                                self.spec_u32s(
                                    header.address_of_names,
                                    header.number_of_names,
                                )->Ok_0[i],
                            )
                    },
                },
            },
        }
    }

    /// Reads the export directory out whole: its header, the module's name, and the three
    /// tables, each name resolved and each function told apart as symbol or forwarder.
    ///
    /// It fails with the fault of the header, else of the module's name, else of the
    /// tables.
    pub fn export_table(&self) -> (r: Result<ExportTable, Error>)
        requires
            self.wf(),
        ensures
            self.spec_export_table_is(r),
    {
        let header = match self.exports() {
            Ok(h) => h,
            Err(e) => {
                return Err(e);
            },
        };
        let dll_name = match header.dll_name(self) {
            Ok(s) => vstd::slice::slice_to_vec(s),
            Err(e) => {
                return Err(e);
            },
        };
        let tables = match header.tables(self) {
            Ok(t) => t,
            Err(e) => {
                return Err(e);
            },
        };
        let n: usize = tables.names.len();
        let mut names: Vec<Vec<u8>> = Vec::new();
        let mut i: usize = 0;
        while i < n
            invariant
                i <= n,
                n == tables.names@.len(),
                names@.len() == i,
                forall|k: int| 0 <= k < i ==> (#[trigger] names@[k])@ == tables.names@[k]@,
            decreases n - i,
        {
            names.push(vstd::slice::slice_to_vec(tables.names[i]));
            i = i + 1;
        }
        let m: usize = tables.functions.len();
        let mut exports: Vec<Exported> = Vec::new();
        let mut j: usize = 0;
        while j < m
            invariant
                j <= m,
                m == tables.functions@.len(),
                self.wf(),
                exports@.len() == j,
                forall|k: int|
                    0 <= k < j ==> (#[trigger] exports@[k]).as_result() == self.spec_export_of(
                        header,
                        tables.functions@[k],
                    ),
            decreases m - j,
        {
            let entry = match self.export_of(&header, tables.functions[j]) {
                Ok(Export::Symbol(rva)) => Exported::Symbol(rva),
                Ok(Export::Forward(s)) => Exported::Forward(vstd::slice::slice_to_vec(s)),
                Err(e) => Exported::Bad(e),
            };
            exports.push(entry);
            j = j + 1;
        }
        Ok(
            ExportTable {
                header,
                dll_name,
                functions: tables.functions,
                exports,
                names,
                name_indices: tables.name_indices,
            },
        )
    }
}

} // verus!
