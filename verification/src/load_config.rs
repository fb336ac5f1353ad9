use vstd::prelude::*;
use crate::bytes::{le_u16, le_u32, le_u64, read_u16, read_u32, read_u64};
use crate::error::Error;
use crate::image::{Bitness, Image, DIR_LOAD_CONFIG};

verus! {

/// What the load configuration directory says of the image's hardening. Fields that the
/// directory is too short to hold are zero.
#[derive(Clone, Copy, Debug, PartialEq, Eq, Structural)]
pub struct LoadConfig {
    /// The size the directory gives itself.
    pub size: u32,
    pub time_date_stamp: u32,
    pub major_version: u16,
    pub minor_version: u16,
    pub global_flags_clear: u32,
    pub global_flags_set: u32,
    /// Virtual address of the stack cookie.
    pub security_cookie: u64,
    /// Virtual address of the table of safe exception handlers, and how many it holds.
    pub se_handler_table: u64,
    pub se_handler_count: u64,
    pub guard_cf_check_function_pointer: u64,
    pub guard_cf_dispatch_function_pointer: u64,
    /// Virtual address of the table of valid call targets, and how many it holds.
    pub guard_cf_function_table: u64,
    pub guard_cf_function_count: u64,
    pub guard_flags: u32,
}

/// The 16-bit field at `at` of a structure of `size` bytes at `o`, zero if it lies past
/// the structure's end.
pub open spec fn field16(data: Seq<u8>, o: int, at: int, size: int) -> u16 {
    if at + 2 <= size {
        le_u16(data, o + at) as u16
    } else {
        0
    }
}

/// The 32-bit field at `at` of a structure of `size` bytes at `o`, zero if it lies past
/// the structure's end.
pub open spec fn field32(data: Seq<u8>, o: int, at: int, size: int) -> u32 {
    if at + 4 <= size {
        le_u32(data, o + at) as u32
    } else {
        0
    }
}

/// The 64-bit field at `at` of a structure of `size` bytes at `o`, zero if it lies past
/// the structure's end.
pub open spec fn field64(data: Seq<u8>, o: int, at: int, size: int) -> u64 {
    if at + 8 <= size {
        le_u64(data, o + at) as u64
    } else {
        0
    }
}

fn get16(data: &[u8], o: usize, at: usize, size: usize) -> (r: u16)
    requires
        o + size <= data.len(),
        at <= 1000,
    ensures
        r == field16(data@, o as int, at as int, size as int),
{
    if at + 2 <= size {
        read_u16(data, o + at)
    } else {
        0
    }
}

fn get32(data: &[u8], o: usize, at: usize, size: usize) -> (r: u32)
    requires
        o + size <= data.len(),
        at <= 1000,
    ensures
        r == field32(data@, o as int, at as int, size as int),
{
    if at + 4 <= size {
        read_u32(data, o + at)
    } else {
        0
    }
}

fn get64(data: &[u8], o: usize, at: usize, size: usize) -> (r: u64)
    requires
        o + size <= data.len(),
        at <= 1000,
    ensures
        r == field64(data@, o as int, at as int, size as int),
{
    if at + 8 <= size {
        read_u64(data, o + at)
    } else {
        0
    }
}

/// How many bytes of the directory are read at most.
pub open spec fn load_config_span(bitness: Bitness) -> usize {
    match bitness {
        Bitness::Pe32 => 92,
        Bitness::Pe64 => 148,
    }
}

/// The configuration that the `size` bytes at `o` hold, in the layout of the given width.
pub open spec fn load_config_at(data: Seq<u8>, o: int, size: int, declared: u32, bitness: Bitness) -> LoadConfig {
    match bitness {
        Bitness::Pe32 => LoadConfig {
            size: declared,
            time_date_stamp: field32(data, o, 4, size),
            major_version: field16(data, o, 8, size),
            minor_version: field16(data, o, 10, size),
            global_flags_clear: field32(data, o, 12, size),
            global_flags_set: field32(data, o, 16, size),
            security_cookie: field32(data, o, 60, size) as u64,
            se_handler_table: field32(data, o, 64, size) as u64,
            se_handler_count: field32(data, o, 68, size) as u64,
            guard_cf_check_function_pointer: field32(data, o, 72, size) as u64,
            guard_cf_dispatch_function_pointer: field32(data, o, 76, size) as u64,
            guard_cf_function_table: field32(data, o, 80, size) as u64,
            guard_cf_function_count: field32(data, o, 84, size) as u64,
            guard_flags: field32(data, o, 88, size),
        },
        Bitness::Pe64 => LoadConfig {
            size: declared,
            time_date_stamp: field32(data, o, 4, size),
            major_version: field16(data, o, 8, size),
            minor_version: field16(data, o, 10, size),
            global_flags_clear: field32(data, o, 12, size),
            global_flags_set: field32(data, o, 16, size),
            security_cookie: field64(data, o, 88, size),
            se_handler_table: field64(data, o, 96, size),
            se_handler_count: field64(data, o, 104, size),
            guard_cf_check_function_pointer: field64(data, o, 112, size),
            guard_cf_dispatch_function_pointer: field64(data, o, 120, size),
            guard_cf_function_table: field64(data, o, 128, size),
            guard_cf_function_count: field64(data, o, 136, size),
            guard_flags: field32(data, o, 144, size),
        },
    }
}

impl<'a> Image<'a> {
    /// The load configuration.
    ///
    /// `Null` where the image has no such directory. The directory begins with its own
    /// size, which must be at least the four bytes of that field, else `Invalid`; as much
    /// of it is read as it declares, up to the last field known here.
    pub open spec fn spec_load_config(&self) -> Result<LoadConfig, Error> {
        let dir = self.headers.data_directories@[DIR_LOAD_CONFIG as int];
        if dir.rva == 0 {
            Err(Error::Null)
        } else {
            match self.spec_load_u32(dir.rva) {
                Err(e) => Err(e),
                Ok(declared) => {
                    let span = if declared < load_config_span(self.headers.bitness) {
                        declared as usize
                    } else {
                        load_config_span(self.headers.bitness)
                    };
                    if declared < 4 {
                        Err(Error::Invalid)
                    } else {
                        match self.spec_slice(dir.rva, span) {
                            Err(e) => Err(e),
                            Ok(o) => Ok(
                                load_config_at(
                                    self.data@,
                                    o as int,
                                    span as int,
                                    declared,
                                    self.headers.bitness,
                                ),
                            ),
                        }
                    }
                },
            }
        }
    }

    /// Reads the load configuration.
    pub fn load_config(&self) -> (r: Result<LoadConfig, Error>)
        requires
            self.wf(),
        ensures
            r == self.spec_load_config(),
    {
        let dir = self.directory(DIR_LOAD_CONFIG);
        if dir.rva == 0 {
            return Err(Error::Null);
        }
        let declared: u32 = match self.load_u32(dir.rva) {
            Ok(v) => v,
            Err(e) => {
                return Err(e);
            },
        };
        if declared < 4 {
            return Err(Error::Invalid);
        }
        let full: usize = match self.headers.bitness {
            Bitness::Pe32 => 92,
            Bitness::Pe64 => 148,
        };
        let span: usize = if (declared as usize) < full {
            declared as usize
        } else {
            full
        };
        let o = match self.slice_at(dir.rva, span) {
            Ok(o) => o,
            Err(e) => {
                return Err(e);
            },
        };
        let d = self.data;
        match self.headers.bitness {
            Bitness::Pe32 => Ok(
                LoadConfig {
                    size: declared,
                    time_date_stamp: get32(d, o, 4, span),
                    major_version: get16(d, o, 8, span),
                    minor_version: get16(d, o, 10, span),
                    global_flags_clear: get32(d, o, 12, span),
                    global_flags_set: get32(d, o, 16, span),
                    security_cookie: get32(d, o, 60, span) as u64,
                    se_handler_table: get32(d, o, 64, span) as u64,
                    se_handler_count: get32(d, o, 68, span) as u64,
                    guard_cf_check_function_pointer: get32(d, o, 72, span) as u64,
                    guard_cf_dispatch_function_pointer: get32(d, o, 76, span) as u64,
                    guard_cf_function_table: get32(d, o, 80, span) as u64,
                    guard_cf_function_count: get32(d, o, 84, span) as u64,
                    guard_flags: get32(d, o, 88, span),
                },
            ),
            Bitness::Pe64 => Ok(
                LoadConfig {
                    size: declared,
                    time_date_stamp: get32(d, o, 4, span),
                    major_version: get16(d, o, 8, span),
                    minor_version: get16(d, o, 10, span),
                    global_flags_clear: get32(d, o, 12, span),
                    global_flags_set: get32(d, o, 16, span),
                    security_cookie: get64(d, o, 88, span),
                    se_handler_table: get64(d, o, 96, span),
                    se_handler_count: get64(d, o, 104, span),
                    guard_cf_check_function_pointer: get64(d, o, 112, span),
                    guard_cf_dispatch_function_pointer: get64(d, o, 120, span),
                    guard_cf_function_table: get64(d, o, 128, span),
                    guard_cf_function_count: get64(d, o, 136, span),
                    guard_flags: get32(d, o, 144, span),
                },
            ),
        }
    }
}

impl LoadConfig {
    /// Where a table of the configuration lies and how many entries it has: nowhere and
    /// none where its address or its count is zero; else the RVA of its address, with
    /// `Overflow` where the count does not fit in 32 bits.
    pub open spec fn spec_table_range(image: &Image, table: u64, count: u64) -> Result<
        (u32, u32),
        Error,
    > {
        if table == 0 || count == 0 {
            Ok((0, 0))
        } else if count > u32::MAX {
            Err(Error::Overflow)
        } else {
            match image.spec_va_to_rva(table) {
                Err(e) => Err(e),
                Ok(rva) => Ok((rva, count as u32)),
            }
        }
    }

    fn table_range(image: &Image, table: u64, count: u64) -> (r: Result<(u32, u32), Error>)
        ensures
            r == Self::spec_table_range(image, table, count),
    {
        if table == 0 || count == 0 {
            Ok((0, 0))
        } else if count > u32::MAX as u64 {
            Err(Error::Overflow)
        } else {
            match image.va_to_rva(table) {
                Err(e) => Err(e),
                Ok(rva) => Ok((rva, count as u32)),
            }
        }
    }

    /// The safe exception handlers: the RVAs in the table at `se_handler_table`.
    pub fn se_handlers(&self, image: &Image) -> (r: Result<Vec<u32>, Error>)
        requires
            image.wf(),
        ensures
            match Self::spec_table_range(image, self.se_handler_table, self.se_handler_count) {
                Err(e) => r == Err::<Vec<u32>, Error>(e),
                Ok((rva, count)) => match r {
                    Ok(v) => image.spec_u32s(rva, count) == Ok::<Seq<u32>, Error>(v@),
                    Err(e) => image.spec_u32s(rva, count) == Err::<Seq<u32>, Error>(e),
                },
            },
    {
        match Self::table_range(image, self.se_handler_table, self.se_handler_count) {
            Err(e) => Err(e),
            Ok((rva, count)) => image.load_u32s(rva, count),
        }
    }

    /// How many bytes an entry of the table of call targets takes: the four of its RVA,
    /// and as many more as the top four bits of the guard flags say.
    pub open spec fn spec_guard_stride(&self) -> int {
        4 + self.guard_flags / 0x1000_0000
    }

    /// The valid call targets: the RVA that begins each entry of the table at
    /// `guard_cf_function_table`.
    pub open spec fn spec_guard_cf_functions(&self, image: &Image) -> Result<Seq<u32>, Error> {
        let stride = self.spec_guard_stride();
        match Self::spec_table_range(
            image,
            self.guard_cf_function_table,
            self.guard_cf_function_count,
        ) {
            Err(e) => Err(e),
            Ok((rva, count)) => if count == 0 {
                Ok(Seq::empty())
            } else if rva + count * stride > u32::MAX {
                Err(Error::Overflow)
            } else {
                match image.spec_slice(rva, (count * stride) as usize) {
                    Err(e) => Err(e),
                    Ok(o) => Ok(
                        Seq::new(count as nat, |i: int| le_u32(image.data@, o + stride * i) as u32),
                    ),
                }
            },
        }
    }

    /// Reads the valid call targets.
    pub fn guard_cf_functions(&self, image: &Image) -> (r: Result<Vec<u32>, Error>)
        requires
            image.wf(),
        ensures
            match r {
                Ok(v) => self.spec_guard_cf_functions(image) == Ok::<Seq<u32>, Error>(v@),
                Err(e) => self.spec_guard_cf_functions(image) == Err::<Seq<u32>, Error>(e),
            },
    {
        let (rva, count) = match Self::table_range(
            image,
            self.guard_cf_function_table,
            self.guard_cf_function_count,
        ) {
            Ok(range) => range,
            Err(e) => {
                return Err(e);
            },
        };
        let mut out: Vec<u32> = Vec::new();
        if count == 0 {
            assert(out@ =~= Seq::<u32>::empty());
            return Ok(out);
        }
        let stride: u64 = 4 + (self.guard_flags / 0x1000_0000) as u64;
        assert(count * stride <= 19 * count) by (nonlinear_arith)
            requires
                0 <= stride <= 19,
                count >= 0,
        ;
        let bytes: u64 = count as u64 * stride;
        if bytes > (u32::MAX - rva) as u64 {
            return Err(Error::Overflow);
        }
        let o = match image.slice_at(rva, bytes as usize) {
            Ok(o) => o,
            Err(e) => {
                return Err(e);
            },
        };
        let n: usize = count as usize;
        let width: usize = stride as usize;
        let mut i: usize = 0;
        while i < n
            invariant
                i <= n,
                n == count,
                4 <= width <= 19,
                width == stride,
                o + n * width <= image.data.len(),
                out@.len() == i,
                forall|k: int|
                    0 <= k < i ==> out@[k] == le_u32(image.data@, o + width * k) as u32,
            decreases n - i,
        {
            assert(width * i + width <= n * width) by (nonlinear_arith)
                requires
                    i < n,
                    width >= 0,
            ;
            out.push(read_u32(image.data, o + width * i));
            i = i + 1;
        }
        assert(out@ =~= Seq::new(
            count as nat,
            |i: int| le_u32(image.data@, o + self.spec_guard_stride() * i) as u32,
        ));
        Ok(out)
    }
}

} // verus!
