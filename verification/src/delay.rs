use vstd::prelude::*;
use crate::bytes::{le_u32, read_u32};
use crate::error::Error;
use crate::image::{Image, DIR_DELAY_IMPORT};
use crate::imports::{after, cons, lemma_after_cons, lemma_after_empty};

verus! {

/// The delay-load import directory: the range that holds its descriptors.
#[derive(Clone, Copy, Debug, PartialEq, Eq, Structural)]
pub struct DelayImports {
    pub rva: u32,
    pub size: u32,
}

/// One delay-load descriptor: what the image takes from one module once it first calls it.
#[derive(Clone, Copy, Debug, PartialEq, Eq, Structural)]
pub struct DelayDescriptor {
    pub attributes: u32,
    /// RVA of the module's name.
    pub dll_name: u32,
    pub module_handle: u32,
    /// RVA of the import address table.
    pub import_address_table: u32,
    /// RVA of the import name table.
    pub import_name_table: u32,
    pub bound_import_address_table: u32,
    pub unload_information_table: u32,
    pub time_date_stamp: u32,
}

impl DelayDescriptor {
    /// The descriptor that ends the table: all of its fields are zero.
    pub open spec fn spec_is_null(&self) -> bool {
        self.attributes == 0 && self.dll_name == 0 && self.module_handle == 0
            && self.import_address_table == 0 && self.import_name_table == 0
            && self.bound_import_address_table == 0 && self.unload_information_table == 0
            && self.time_date_stamp == 0
    }

    /// Tells whether this is the descriptor that ends the table.
    pub fn is_null(&self) -> (r: bool)
        ensures
            r == self.spec_is_null(),
    {
        self.attributes == 0 && self.dll_name == 0 && self.module_handle == 0
            && self.import_address_table == 0 && self.import_name_table == 0
            && self.bound_import_address_table == 0 && self.unload_information_table == 0
            && self.time_date_stamp == 0
    }

    /// The name of the module the descriptor imports from.
    pub fn name<'a>(&self, image: &Image<'a>) -> (r: Result<&'a [u8], Error>)
        requires
            image.wf(),
        ensures
            match r {
                Ok(bytes) => image.spec_c_str(self.dll_name) == Ok::<Seq<u8>, Error>(bytes@),
                Err(e) => image.spec_c_str(self.dll_name) == Err::<Seq<u8>, Error>(e),
            },
    {
        image.derva_c_str(self.dll_name)
    }

    /// The thunks of the import name table, to be resolved as those of an import
    /// descriptor are.
    pub fn name_table(&self, image: &Image) -> (r: Result<Vec<u64>, Error>)
        requires
            image.wf(),
        ensures
            match r {
                Ok(v) => image.spec_thunks(self.import_name_table as int) == Ok::<
                    Seq<u64>,
                    Error,
                >(v@),
                Err(e) => image.spec_thunks(self.import_name_table as int) == Err::<
                    Seq<u64>,
                    Error,
                >(e),
            },
    {
        image.thunks(self.import_name_table)
    }
}

/// The descriptor that the thirty-two bytes at `o` hold.
pub open spec fn delay_descriptor_at(data: Seq<u8>, o: int) -> DelayDescriptor {
    DelayDescriptor {
        attributes: le_u32(data, o) as u32,
        dll_name: le_u32(data, o + 4) as u32,
        module_handle: le_u32(data, o + 8) as u32,
        import_address_table: le_u32(data, o + 12) as u32,
        import_name_table: le_u32(data, o + 16) as u32,
        bound_import_address_table: le_u32(data, o + 20) as u32,
        unload_information_table: le_u32(data, o + 24) as u32,
        time_date_stamp: le_u32(data, o + 28) as u32,
    }
}

impl<'a> Image<'a> {
    /// The delay-load import directory, or `Null` where the image has none.
    pub open spec fn spec_delay_imports(&self) -> Result<DelayImports, Error> {
        let dir = self.headers.data_directories@[DIR_DELAY_IMPORT as int];
        if dir.rva == 0 {
            Err(Error::Null)
        } else {
            Ok(DelayImports { rva: dir.rva, size: dir.size })
        }
    }

    /// Opens the delay-load import directory.
    pub fn delay_imports(&self) -> (r: Result<DelayImports, Error>)
        requires
            self.wf(),
        ensures
            r == self.spec_delay_imports(),
    {
        let dir = self.directory(DIR_DELAY_IMPORT);
        if dir.rva == 0 {
            Err(Error::Null)
        } else {
            Ok(DelayImports { rva: dir.rva, size: dir.size })
        }
    }
}

impl DelayImports {
    /// What lies at place `index` of the descriptor table: a descriptor, or `None` for the
    /// null descriptor that ends the table.
    ///
    /// A place that reaches past the directory, or that cannot be read, is `Invalid`.
    pub open spec fn spec_descriptor(&self, image: &Image, index: int) -> Result<
        Option<DelayDescriptor>,
        Error,
    > {
        if index < 0 || 32 * (index + 1) > self.size || self.rva + 32 * index > u32::MAX {
            Err(Error::Invalid)
        } else {
            match image.spec_slice((self.rva + 32 * index) as u32, 32) {
                Err(_) => Err(Error::Invalid),
                Ok(o) => if delay_descriptor_at(image.data@, o as int).spec_is_null() {
                    Ok(None)
                } else {
                    Ok(Some(delay_descriptor_at(image.data@, o as int)))
                },
            }
        }
    }

    /// The descriptors from place `index` on, up to the null descriptor.
    pub open spec fn spec_descriptors_from(&self, image: &Image, index: int) -> Result<
        Seq<DelayDescriptor>,
        Error,
    >
        decreases self.size - 32 * index,
    {
        match self.spec_descriptor(image, index) {
            Err(e) => Err(e),
            Ok(None) => Ok(Seq::empty()),
            Ok(Some(d)) => cons(d, self.spec_descriptors_from(image, index + 1)),
        }
    }

    /// Reads the descriptor at place `index` of the table.
    pub fn descriptor(&self, image: &Image, index: u32) -> (r: Result<
        Option<DelayDescriptor>,
        Error,
    >)
        requires
            image.wf(),
        ensures
            r == self.spec_descriptor(image, index as int),
    {
        if (index as u64 + 1) * 32 > self.size as u64 || self.rva as u64 + 32 * (index as u64)
            > u32::MAX as u64 {
            return Err(Error::Invalid);
        }
        let o = match image.slice_at(self.rva + 32 * index, 32) {
            Ok(o) => o,
            Err(_) => {
                return Err(Error::Invalid);
            },
        };
        let d = DelayDescriptor {
            attributes: read_u32(image.data, o),
            dll_name: read_u32(image.data, o + 4),
            module_handle: read_u32(image.data, o + 8),
            import_address_table: read_u32(image.data, o + 12),
            import_name_table: read_u32(image.data, o + 16),
            bound_import_address_table: read_u32(image.data, o + 20),
            unload_information_table: read_u32(image.data, o + 24),
            time_date_stamp: read_u32(image.data, o + 28),
        };
        if d.is_null() {
            Ok(None)
        } else {
            Ok(Some(d))
        }
    }

    /// Reads every descriptor of the table, in order.
    pub fn descriptors(&self, image: &Image) -> (r: Result<Vec<DelayDescriptor>, Error>)
        requires
            image.wf(),
        ensures
            match r {
                Ok(v) => self.spec_descriptors_from(image, 0) == Ok::<
                    Seq<DelayDescriptor>,
                    Error,
                >(v@),
                Err(e) => self.spec_descriptors_from(image, 0) == Err::<
                    Seq<DelayDescriptor>,
                    Error,
                >(e),
            },
    {
        let mut out: Vec<DelayDescriptor> = Vec::new();
        let mut index: u32 = 0;
        proof {
            lemma_after_empty(self.spec_descriptors_from(image, 0));
        }
        loop
            invariant
                image.wf(),
                32 * index <= self.size,
                self.spec_descriptors_from(image, 0) == after(
                    out@,
                    self.spec_descriptors_from(image, index as int),
                ),
            decreases self.size - 32 * index,
        {
            match self.descriptor(image, index) {
                Err(e) => {
                    return Err(e);
                },
                Ok(None) => {
                    proof {
                        assert(out@ + Seq::<DelayDescriptor>::empty() =~= out@);
                    }
                    return Ok(out);
                },
                Ok(Some(d)) => {
                    proof {
                        lemma_after_cons(out@, d, self.spec_descriptors_from(image, index + 1));
                    }
                    out.push(d);
                    index = index + 1;
                },
            }
        }
    }
}

} // verus!
