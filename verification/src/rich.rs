use vstd::prelude::*;
use crate::bytes::{le_u32, read_u32};
use crate::error::Error;
use crate::image::Image;

verus! {

/// The marker that ends the Rich header: `Rich`.
pub const RICH: u32 = 0x6863_6952;

/// The marker that begins the Rich header once decoded: `DanS`.
pub const DANS: u32 = 0x536E_6144;

/// Where the search for the Rich header begins: the end of the DOS header.
pub const RICH_FLOOR: usize = 0x40;

/// One record of the Rich header: a tool, by product and build, and how many objects it
/// made.
#[derive(Clone, Copy, Debug, PartialEq, Eq, Structural)]
pub struct RichRecord {
    pub product: u16,
    pub build: u16,
    pub count: u32,
}

/// The Rich header: what the linker wrote between the DOS stub and the NT headers.
#[derive(Clone, Debug, PartialEq, Eq)]
pub struct Rich {
    /// The key that the header is XORed with.
    pub key: u32,
    /// File offset of the header's first marker.
    pub start: u32,
    /// File offset of the header's last marker.
    pub end: u32,
    pub records: Vec<RichRecord>,
}

/// The first multiple of four from `p` on, with eight bytes left before `limit`, at which
/// the `Rich` marker stands.
pub open spec fn rich_marker_from(data: Seq<u8>, p: int, limit: int) -> Option<int>
    decreases limit - p,
{
    if p < 0 || p + 8 > limit {
        None
    } else if le_u32(data, p) == RICH {
        Some(p)
    } else {
        rich_marker_from(data, p + 4, limit)
    }
}

/// The nearest multiple of four from `q` down to the floor at which `DanS` stands under
/// the key.
pub open spec fn dans_marker_from(data: Seq<u8>, q: int, key: u32) -> Option<int>
    decreases q,
{
    if q < RICH_FLOOR {
        None
    } else if (le_u32(data, q) as u32) ^ key == DANS {
        Some(q)
    } else {
        dans_marker_from(data, q - 4, key)
    }
}

/// The `i`-th record of a header that begins at `start`, decoded with the key: the high
/// half of its first word is the product, the low half the build, its second word the
/// count.
pub open spec fn rich_record(data: Seq<u8>, start: int, key: u32, i: int) -> RichRecord {
    let id = (le_u32(data, start + 16 + 8 * i) as u32) ^ key;
    RichRecord {
        product: (id / 0x1_0000) as u16,
        build: (id % 0x1_0000) as u16,
        count: (le_u32(data, start + 20 + 8 * i) as u32) ^ key,
    }
}

/// The Rich header as values.
pub struct RichView {
    pub key: u32,
    pub start: u32,
    pub end: u32,
    pub records: Seq<RichRecord>,
}

impl View for Rich {
    type V = RichView;

    open spec fn view(&self) -> RichView {
        RichView { key: self.key, start: self.start, end: self.end, records: self.records@ }
    }
}

impl<'a> Image<'a> {
    /// The Rich header.
    ///
    /// It ends at the first `Rich` marker between the DOS header and the NT headers, after
    /// which stands the key; without one the image has no Rich header: `Null`. It begins
    /// at the nearest `DanS` before that, under the key, which three words of padding
    /// follow; without one, or with less room than that, it is `Invalid`. In between lie
    /// the records, eight bytes each.
    pub open spec fn spec_rich(&self) -> Result<RichView, Error> {
        let data = self.data@;
        match rich_marker_from(data, RICH_FLOOR as int, self.headers.e_lfanew as int) {
            None => Err(Error::Null),
            Some(end) => {
                let key = le_u32(data, end + 4) as u32;
                match dans_marker_from(data, end - 4, key) {
                    None => Err(Error::Invalid),
                    Some(start) => if end - start < 16 {
                        Err(Error::Invalid)
                    } else {
                        Ok(
                            RichView {
                                key,
                                start: start as u32,
                                end: end as u32,
                                records: Seq::new(
                                    ((end - start - 16) / 8) as nat,
                                    |i: int| rich_record(data, start, key, i),
                                ),
                            },
                        )
                    },
                }
            },
        }
    }

    /// Reads the Rich header.
    pub fn rich_structure(&self) -> (r: Result<Rich, Error>)
        requires
            self.wf(),
        ensures
            match r {
                Ok(rich) => self.spec_rich() == Ok::<RichView, Error>(rich@),
                Err(e) => self.spec_rich() == Err::<RichView, Error>(e),
            },
    {
        let data = self.data;
        let len: usize = data.len();
        proof {
            self.lemma_headers_fit();
        }
        let limit: usize = self.headers.e_lfanew as usize;
        let mut p: usize = RICH_FLOOR;
        let mut marker: Option<usize> = None;
        while marker.is_none() && p <= limit && limit - p >= 8
            invariant
                RICH_FLOOR <= p,
                limit <= len,
                len == data.len(),
                match marker {
                    Some(m) => m + 8 <= limit && RICH_FLOOR <= m && rich_marker_from(
                        data@,
                        RICH_FLOOR as int,
                        limit as int,
                    ) == Some(m as int),
                    None => rich_marker_from(data@, RICH_FLOOR as int, limit as int)
                        == rich_marker_from(data@, p as int, limit as int),
                },
            decreases
                    (if marker is None {
                        1int
                    } else {
                        0int
                    }),
                    limit - p,
        {
            if read_u32(data, p) == RICH {
                marker = Some(p);
            } else {
                p = p + 4;
            }
        }
        let end: usize = match marker {
            Some(m) => m,
            None => {
                return Err(Error::Null);
            },
        };
        let key: u32 = read_u32(data, end + 4);
        let mut q: usize = end - 4;
        let mut begin: Option<usize> = None;
        while begin.is_none() && q >= RICH_FLOOR
            invariant
                q + 4 <= end,
                end + 8 <= limit,
                limit <= len,
                len == data.len(),
                match begin {
                    Some(b) => RICH_FLOOR <= b && b + 4 <= end && dans_marker_from(
                        data@,
                        end - 4,
                        key,
                    ) == Some(b as int),
                    None => dans_marker_from(data@, end - 4, key) == dans_marker_from(
                        data@,
                        q as int,
                        key,
                    ),
                },
            decreases
                    (if begin is None {
                        1int
                    } else {
                        0int
                    }),
                    q,
        {
            if read_u32(data, q) ^ key == DANS {
                begin = Some(q);
            } else {
                q = q - 4;
            }
        }
        let q: usize = match begin {
            Some(b) => b,
            None => {
                return Err(Error::Invalid);
            },
        };
        let start: usize = q;
        if end - start < 16 {
            return Err(Error::Invalid);
        }
        let count: usize = (end - start - 16) / 8;
        let mut records: Vec<RichRecord> = Vec::new();
        let mut i: usize = 0;
        while i < count
            invariant
                i <= count,
                count == (end - start - 16) / 8,
                start + 16 <= end,
                end + 8 <= len,
                len == data.len(),
                records@.len() == i,
                forall|k: int|
                    0 <= k < i ==> records@[k] == rich_record(data@, start as int, key, k),
            decreases count - i,
        {
            let id: u32 = read_u32(data, start + 16 + 8 * i) ^ key;
            let uses: u32 = read_u32(data, start + 20 + 8 * i) ^ key;
            records.push(
                RichRecord {
                    product: (id / 0x1_0000) as u16,
                    build: (id % 0x1_0000) as u16,
                    count: uses,
                },
            );
            i = i + 1;
        }
        assert(records@ =~= Seq::new(
            count as nat,
            |i: int| rich_record(data@, start as int, key, i),
        ));
        Ok(Rich { key, start: start as u32, end: end as u32, records })
    }
}

} // verus!
