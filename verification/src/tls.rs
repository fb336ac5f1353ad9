use vstd::prelude::*;
use crate::bytes::{le_u32, le_u64, read_u32, read_u64};
use crate::error::Error;
use crate::image::{Bitness, Image, DIR_TLS};

verus! {

/// The thread local storage directory. Its addresses are virtual addresses.
#[derive(Clone, Copy, Debug, PartialEq, Eq, Structural)]
pub struct Tls {
    pub start_address_of_raw_data: u64,
    pub end_address_of_raw_data: u64,
    pub address_of_index: u64,
    pub address_of_callbacks: u64,
    pub size_of_zero_fill: u32,
    pub characteristics: u32,
}

/// The directory that the bytes at `o` hold, in the layout of the given width.
pub open spec fn tls_at(data: Seq<u8>, o: int, bitness: Bitness) -> Tls {
    match bitness {
        Bitness::Pe32 => Tls {
            start_address_of_raw_data: le_u32(data, o) as u64,
            end_address_of_raw_data: le_u32(data, o + 4) as u64,
            address_of_index: le_u32(data, o + 8) as u64,
            address_of_callbacks: le_u32(data, o + 12) as u64,
            size_of_zero_fill: le_u32(data, o + 16) as u32,
            characteristics: le_u32(data, o + 20) as u32,
        },
        Bitness::Pe64 => Tls {
            start_address_of_raw_data: le_u64(data, o) as u64,
            end_address_of_raw_data: le_u64(data, o + 8) as u64,
            address_of_index: le_u64(data, o + 16) as u64,
            address_of_callbacks: le_u64(data, o + 24) as u64,
            size_of_zero_fill: le_u32(data, o + 32) as u32,
            characteristics: le_u32(data, o + 36) as u32,
        },
    }
}

/// How many bytes the directory takes.
pub open spec fn tls_size(bitness: Bitness) -> usize {
    match bitness {
        Bitness::Pe32 => 24,
        Bitness::Pe64 => 40,
    }
}

impl<'a> Image<'a> {
    /// The thread local storage directory: `Null` where the image has none, `Invalid`
    /// where the directory is too small to hold it.
    pub open spec fn spec_tls(&self) -> Result<Tls, Error> {
        let dir = self.headers.data_directories@[DIR_TLS as int];
        if dir.rva == 0 {
            Err(Error::Null)
        } else if dir.size < tls_size(self.headers.bitness) {
            Err(Error::Invalid)
        } else {
            match self.spec_slice(dir.rva, tls_size(self.headers.bitness)) {
                Err(e) => Err(e),
                Ok(o) => Ok(tls_at(self.data@, o as int, self.headers.bitness)),
            }
        }
    }

    /// Reads the thread local storage directory.
    pub fn tls(&self) -> (r: Result<Tls, Error>)
        requires
            self.wf(),
        ensures
            r == self.spec_tls(),
    {
        let dir = self.directory(DIR_TLS);
        if dir.rva == 0 {
            return Err(Error::Null);
        }
        match self.headers.bitness {
            Bitness::Pe32 => {
                if dir.size < 24 {
                    return Err(Error::Invalid);
                }
                let o = match self.slice_at(dir.rva, 24) {
                    Ok(o) => o,
                    Err(e) => {
                        return Err(e);
                    },
                };
                Ok(
                    Tls {
                        start_address_of_raw_data: read_u32(self.data, o) as u64,
                        end_address_of_raw_data: read_u32(self.data, o + 4) as u64,
                        address_of_index: read_u32(self.data, o + 8) as u64,
                        address_of_callbacks: read_u32(self.data, o + 12) as u64,
                        size_of_zero_fill: read_u32(self.data, o + 16),
                        characteristics: read_u32(self.data, o + 20),
                    },
                )
            },
            Bitness::Pe64 => {
                if dir.size < 40 {
                    return Err(Error::Invalid);
                }
                let o = match self.slice_at(dir.rva, 40) {
                    Ok(o) => o,
                    Err(e) => {
                        return Err(e);
                    },
                };
                Ok(
                    Tls {
                        start_address_of_raw_data: read_u64(self.data, o),
                        end_address_of_raw_data: read_u64(self.data, o + 8),
                        address_of_index: read_u64(self.data, o + 16),
                        address_of_callbacks: read_u64(self.data, o + 24),
                        size_of_zero_fill: read_u32(self.data, o + 32),
                        characteristics: read_u32(self.data, o + 36),
                    },
                )
            },
        }
    }
}

impl Tls {
    /// The callbacks: the virtual addresses of the array at `address_of_callbacks`, up to
    /// the zero that ends it. No array, no callbacks.
    pub open spec fn spec_callbacks(&self, image: &Image) -> Result<Seq<u64>, Error> {
        if self.address_of_callbacks == 0 {
            Ok(Seq::empty())
        } else {
            match image.spec_va_to_rva(self.address_of_callbacks) {
                Err(e) => Err(e),
                Ok(rva) => image.spec_thunks(rva as int),
            }
        }
    }

    /// Reads the callbacks.
    pub fn callbacks(&self, image: &Image) -> (r: Result<Vec<u64>, Error>)
        requires
            image.wf(),
        ensures
            match r {
                Ok(v) => self.spec_callbacks(image) == Ok::<Seq<u64>, Error>(v@),
                Err(e) => self.spec_callbacks(image) == Err::<Seq<u64>, Error>(e),
            },
    {
        if self.address_of_callbacks == 0 {
            return Ok(Vec::new());
        }
        match image.va_to_rva(self.address_of_callbacks) {
            Err(e) => Err(e),
            Ok(rva) => image.thunks(rva),
        }
    }

    /// Where the template of the thread's data begins and how long it is: `Invalid` where
    /// it ends before it begins, `Overflow` where its length does not fit in 32 bits.
    pub open spec fn spec_raw_range(&self, image: &Image) -> Result<(u32, usize), Error> {
        if self.end_address_of_raw_data < self.start_address_of_raw_data {
            Err(Error::Invalid)
        } else if self.end_address_of_raw_data - self.start_address_of_raw_data > u32::MAX {
            Err(Error::Overflow)
        } else {
            match image.spec_va_to_rva(self.start_address_of_raw_data) {
                Err(e) => Err(e),
                Ok(rva) => Ok(
                    (rva, (self.end_address_of_raw_data - self.start_address_of_raw_data) as usize),
                ),
            }
        }
    }

    /// The template of the thread's data.
    pub fn raw_data<'a>(&self, image: &Image<'a>) -> (r: Result<&'a [u8], Error>)
        requires
            image.wf(),
        ensures
            match self.spec_raw_range(image) {
                Err(e) => r == Err::<&[u8], Error>(e),
                Ok((rva, n)) => match r {
                    Ok(bytes) => image.spec_slice(rva, n) matches Ok(o) && bytes@
                        == image.data@.subrange(o as int, o + n),
                    Err(e) => image.spec_slice(rva, n) == Err::<usize, Error>(e),
                },
            },
    {
        if self.end_address_of_raw_data < self.start_address_of_raw_data {
            return Err(Error::Invalid);
        }
        let n: u64 = self.end_address_of_raw_data - self.start_address_of_raw_data;
        if n > u32::MAX as u64 {
            return Err(Error::Overflow);
        }
        match image.va_to_rva(self.start_address_of_raw_data) {
            Err(e) => Err(e),
            Ok(rva) => image.derva_bytes(rva, n as usize),
        }
    }
}

} // verus!
