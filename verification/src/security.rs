use vstd::prelude::*;
use crate::bytes::{le_u16, le_u32, read_u16, read_u32};
use crate::error::Error;
use crate::image::{Image, Kind, DIR_SECURITY};
use crate::imports::{after, cons, lemma_after_cons, lemma_after_empty};

verus! {

/// One record of the certificate table, found at `offset` in the file.
#[derive(Clone, Copy, Debug, PartialEq, Eq, Structural)]
pub struct Certificate {
    /// File offset of the record.
    pub offset: usize,
    /// Length of the record, its header of eight bytes included.
    pub length: u32,
    pub revision: u16,
    pub certificate_type: u16,
}

/// `n` rounded up to a multiple of eight.
pub open spec fn align8(n: int) -> int {
    n + (8 - n % 8) % 8
}

/// The records of the table from file offset `at` up to `end`.
///
/// Each record begins with its length, which counts its header; records lie at multiples
/// of eight from one another. A record that is shorter than its header or runs past `end`
/// is `Invalid`.
pub open spec fn certificates_from(data: Seq<u8>, at: int, end: int) -> Result<
    Seq<Certificate>,
    Error,
>
    decreases end + 8 - at,
{
    if at >= end {
        Ok(Seq::empty())
    } else if at < 0 || at + 8 > end || le_u32(data, at) < 8 || at + le_u32(data, at) > end {
        Err(Error::Invalid)
    } else {
        cons(
            Certificate {
                offset: at as usize,
                length: le_u32(data, at) as u32,
                revision: le_u16(data, at + 4) as u16,
                certificate_type: le_u16(data, at + 6) as u16,
            },
            certificates_from(data, at + align8(le_u32(data, at)), end),
        )
    }
}

impl<'a> Image<'a> {
    /// The range of the file that holds the certificate table.
    ///
    /// The directory gives a file offset, not an RVA, so a module view has no such table:
    /// `Unmapped`. `Null` where the image has none, `Bounds` where it leaves the file.
    pub open spec fn spec_security_range(&self) -> Result<(usize, usize), Error> {
        let dir = self.headers.data_directories@[DIR_SECURITY as int];
        if self.kind == Kind::Module {
            Err(Error::Unmapped)
        } else if dir.rva == 0 {
            Err(Error::Null)
        } else if dir.rva + dir.size > self.data@.len() {
            Err(Error::Bounds)
        } else {
            Ok((dir.rva as usize, (dir.rva + dir.size) as usize))
        }
    }

    /// Reads the certificate table.
    pub fn security(&self) -> (r: Result<Vec<Certificate>, Error>)
        requires
            self.wf(),
        ensures
            match self.spec_security_range() {
                Err(e) => r == Err::<Vec<Certificate>, Error>(e),
                Ok((start, end)) => match r {
                    Ok(v) => certificates_from(self.data@, start as int, end as int) == Ok::<
                        Seq<Certificate>,
                        Error,
                    >(v@),
                    Err(e) => certificates_from(self.data@, start as int, end as int) == Err::<
                        Seq<Certificate>,
                        Error,
                    >(e),
                },
            },
    {
        let dir = self.directory(DIR_SECURITY);
        if let Kind::Module = self.kind {
            return Err(Error::Unmapped);
        }
        if dir.rva == 0 {
            return Err(Error::Null);
        }
        let len: usize = self.data.len();
        if dir.rva as u64 + dir.size as u64 > len as u64 {
            return Err(Error::Bounds);
        }
        let start: usize = dir.rva as usize;
        let end: usize = start + dir.size as usize;
        let mut out: Vec<Certificate> = Vec::new();
        let mut at: usize = start;
        proof {
            lemma_after_empty(certificates_from(self.data@, start as int, end as int));
        }
        while at < end
            invariant
                start <= at,
                end <= len,
                len == self.data.len(),
                self.spec_security_range() == Ok::<(usize, usize), Error>((start, end)),
                certificates_from(self.data@, start as int, end as int) == after(
                    out@,
                    certificates_from(self.data@, at as int, end as int),
                ),
            decreases end - at,
        {
            if end - at < 8 {
                return Err(Error::Invalid);
            }
            let length: u32 = read_u32(self.data, at);
            if length < 8 || length as usize > end - at {
                return Err(Error::Invalid);
            }
            let cert = Certificate {
                offset: at,
                length,
                revision: read_u16(self.data, at + 4),
                certificate_type: read_u16(self.data, at + 6),
            };
            let step: u64 = length as u64 + (8 - length as u64 % 8) % 8;
            proof {
                lemma_after_cons(
                    out@,
                    cert,
                    certificates_from(self.data@, at + align8(length as int), end as int),
                );
            }
            out.push(cert);
            if step >= (end - at) as u64 {
                proof {
                    assert(out@ + Seq::<Certificate>::empty() =~= out@);
                }
                return Ok(out);
            }
            at = at + step as usize;
        }
        proof {
            assert(out@ + Seq::<Certificate>::empty() =~= out@);
        }
        Ok(out)
    }

    /// The bytes of a certificate, without the header of its record.
    pub fn certificate_data(&self, cert: &Certificate) -> (r: Result<&'a [u8], Error>)
        ensures
            match r {
                Ok(bytes) => cert.length >= 8 && cert.offset + cert.length <= self.data@.len()
                    && bytes@ == self.data@.subrange(cert.offset + 8, cert.offset + cert.length),
                Err(e) => e == Error::Bounds && !(cert.length >= 8 && cert.offset + cert.length
                    <= self.data@.len()),
            },
    {
        let len: usize = self.data.len();
        if cert.length < 8 || cert.offset > len || len - cert.offset < cert.length as usize {
            return Err(Error::Bounds);
        }
        Ok(
            vstd::slice::slice_subrange(
                self.data,
                cert.offset + 8,
                cert.offset + cert.length as usize,
            ),
        )
    }
}

} // verus!
