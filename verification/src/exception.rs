use vstd::prelude::*;
use crate::bytes::{le_u32, read_u32};
use crate::error::Error;
use crate::image::{Image, DIR_EXCEPTION};

verus! {

/// The machine whose function table this module reads.
pub const MACHINE_AMD64: u16 = 0x8664;

/// One entry of the function table of an x64 image.
#[derive(Clone, Copy, Debug, PartialEq, Eq, Structural)]
pub struct RuntimeFunction {
    pub begin_address: u32,
    pub end_address: u32,
    pub unwind_info_address: u32,
}

/// The entry that the twelve bytes at `o` hold.
pub open spec fn function_at(data: Seq<u8>, o: int) -> RuntimeFunction {
    RuntimeFunction {
        begin_address: le_u32(data, o) as u32,
        end_address: le_u32(data, o + 4) as u32,
        unwind_info_address: le_u32(data, o + 8) as u32,
    }
}

impl<'a> Image<'a> {
    /// The function table: the entries of twelve bytes that fill the exception directory.
    ///
    /// `Null` where the image has no such directory; `Invalid` where the image is for
    /// another machine than x64, whose table is laid out otherwise.
    pub open spec fn spec_exception(&self) -> Result<Seq<RuntimeFunction>, Error> {
        let dir = self.headers.data_directories@[DIR_EXCEPTION as int];
        let count = dir.size / 12;
        if dir.rva == 0 {
            Err(Error::Null)
        } else if self.headers.machine != MACHINE_AMD64 {
            Err(Error::Invalid)
        } else if count == 0 {
            Ok(Seq::empty())
        } else {
            match self.spec_slice(dir.rva, (12 * count) as usize) {
                Err(e) => Err(e),
                Ok(o) => Ok(Seq::new(count as nat, |i: int| function_at(self.data@, o + 12 * i))),
            }
        }
    }

    /// Reads the function table.
    pub fn exception(&self) -> (r: Result<Vec<RuntimeFunction>, Error>)
        requires
            self.wf(),
        ensures
            match r {
                Ok(v) => self.spec_exception() == Ok::<Seq<RuntimeFunction>, Error>(v@),
                Err(e) => self.spec_exception() == Err::<Seq<RuntimeFunction>, Error>(e),
            },
    {
        let dir = self.directory(DIR_EXCEPTION);
        if dir.rva == 0 {
            return Err(Error::Null);
        }
        if self.headers.machine != MACHINE_AMD64 {
            return Err(Error::Invalid);
        }
        let count: usize = (dir.size / 12) as usize;
        let mut out: Vec<RuntimeFunction> = Vec::new();
        if count == 0 {
            assert(out@ =~= Seq::<RuntimeFunction>::empty());
            return Ok(out);
        }
        let o = match self.slice_at(dir.rva, 12 * count) {
            Ok(o) => o,
            Err(e) => {
                return Err(e);
            },
        };
        let mut i: usize = 0;
        while i < count
            invariant
                i <= count,
                o + 12 * count <= self.data.len(),
                out@.len() == i,
                forall|k: int| 0 <= k < i ==> out@[k] == function_at(self.data@, o + 12 * k),
            decreases count - i,
        {
            let at: usize = o + 12 * i;
            out.push(
                RuntimeFunction {
                    begin_address: read_u32(self.data, at),
                    end_address: read_u32(self.data, at + 4),
                    unwind_info_address: read_u32(self.data, at + 8),
                },
            );
            i = i + 1;
        }
        assert(out@ =~= Seq::new(count as nat, |i: int| function_at(self.data@, o + 12 * i)));
        Ok(out)
    }
}

} // verus!
