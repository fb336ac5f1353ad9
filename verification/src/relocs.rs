use vstd::prelude::*;
use crate::bytes::{le_u16, le_u32, read_u16, read_u32};
use crate::error::Error;
use crate::image::{Image, DIR_BASERELOC};
use crate::imports::{after, cons, lemma_after_cons, lemma_after_empty};

verus! {

/// Padding entry: names no address.
pub const REL_ABSOLUTE: u16 = 0;

/// Entry for a 32-bit address.
pub const REL_HIGHLOW: u16 = 3;

/// Entry for a 64-bit address.
pub const REL_DIR64: u16 = 10;

/// The base relocation directory: its bytes, a packed sequence of blocks.
#[derive(Clone, Copy, Debug)]
pub struct BaseRelocs<'a> {
    pub bytes: &'a [u8],
}

/// One block of the directory, found at `offset` in its bytes.
#[derive(Clone, Copy, Debug, PartialEq, Eq, Structural)]
pub struct Block {
    pub offset: usize,
    pub page_rva: u32,
    pub size: u32,
}

/// One entry of a block: its type, and the address it names.
#[derive(Clone, Copy, Debug, PartialEq, Eq, Structural)]
pub struct Reloc {
    pub kind: u16,
    pub rva: u32,
}

/// One block read out whole: each entry as it stands, or the fault of that entry.
#[derive(Clone, Debug, PartialEq, Eq)]
pub struct RelocBlock {
    pub block: Block,
    pub entries: Vec<Result<Reloc, Error>>,
}

/// Whether a block header at `at` is sound: it fits, declares room for itself, and ends
/// within the directory.
pub open spec fn block_ok(bytes: Seq<u8>, at: int) -> bool {
    &&& 0 <= at
    &&& at + 8 <= bytes.len()
    &&& le_u32(bytes, at + 4) >= 8
    &&& at + le_u32(bytes, at + 4) <= bytes.len()
}

/// How many entries the block at `at` holds.
pub open spec fn block_words(bytes: Seq<u8>, at: int) -> int {
    (le_u32(bytes, at + 4) - 8) / 2
}

/// The `k`-th entry of the block at `at`.
pub open spec fn block_word(bytes: Seq<u8>, at: int, k: int) -> int {
    le_u16(bytes, at + 8 + 2 * k)
}

/// The type of an entry: its top four bits.
pub open spec fn word_type(w: int) -> int {
    w / 0x1000
}

/// The offset of an entry into its page: its low twelve bits.
pub open spec fn word_offset(w: int) -> int {
    w % 0x1000
}

/// What lies at `at`: the end of the directory, a block, or a fault.
pub open spec fn spec_block_at(bytes: Seq<u8>, at: int) -> Result<Option<Block>, Error> {
    if at == bytes.len() {
        Ok(None)
    } else if !block_ok(bytes, at) {
        Err(Error::Invalid)
    } else {
        Ok(
            Some(
                Block {
                    offset: at as usize,
                    page_rva: le_u32(bytes, at) as u32,
                    size: le_u32(bytes, at + 4) as u32,
                },
            ),
        )
    }
}

/// The `k`-th entry of a block of the directory: its type and the address it names.
///
/// `Invalid` where the block is not one of this directory or has no such entry, `Overflow`
/// where the address does not fit in 32 bits.
pub open spec fn spec_entry(bytes: Seq<u8>, block: Block, k: int) -> Result<Reloc, Error> {
    let w = block_word(bytes, block.offset as int, k);
    if spec_block_at(bytes, block.offset as int) != Ok::<Option<Block>, Error>(Some(block)) {
        Err(Error::Invalid)
    } else if k < 0 || k >= block_words(bytes, block.offset as int) {
        Err(Error::Invalid)
    } else if block.page_rva + word_offset(w) > u32::MAX {
        Err(Error::Overflow)
    } else {
        Ok(Reloc { kind: word_type(w) as u16, rva: (block.page_rva + word_offset(w)) as u32 })
    }
}

/// The blocks of the directory from offset `at` on, in order; a block that is not sound
/// makes the whole `Invalid`.
pub open spec fn blocks_from(bytes: Seq<u8>, at: int) -> Result<Seq<Block>, Error>
    decreases bytes.len() - at,
{
    match spec_block_at(bytes, at) {
        Err(e) => Err(e),
        Ok(None) => Ok(Seq::empty()),
        Ok(Some(block)) => cons(block, blocks_from(bytes, at + block.size)),
    }
}

/// Whether `read` is the block `block` of the directory with every one of its entries.
pub open spec fn block_matches(bytes: Seq<u8>, block: Block, read: RelocBlock) -> bool {
    &&& read.block == block
    &&& read.entries@.len() == block_words(bytes, block.offset as int)
    &&& forall|k: int|
        0 <= k < read.entries@.len() ==> #[trigger] read.entries@[k] == spec_entry(bytes, block, k)
}

/// Whether `read` is the blocks `blocks` of the directory, each with its entries.
pub open spec fn blocks_match(bytes: Seq<u8>, blocks: Seq<Block>, read: Seq<RelocBlock>) -> bool {
    &&& read.len() == blocks.len()
    &&& forall|i: int| 0 <= i < read.len() ==> block_matches(bytes, blocks[i], #[trigger] read[i])
}

/// The entries that name an address, from entry `k` of the block at `at` on, in order,
/// each with its type; padding entries are left out.
///
/// A block that is not sound makes the whole `Invalid`; an entry whose address does not fit
/// in 32 bits makes it `Overflow`.
pub open spec fn relocs_from(bytes: Seq<u8>, at: int, k: int) -> Result<Seq<Reloc>, Error>
    decreases bytes.len() - at, block_words(bytes, at) - k,
{
    if at == bytes.len() {
        Ok(Seq::empty())
    } else if !block_ok(bytes, at) || k < 0 {
        Err(Error::Invalid)
    } else if k >= block_words(bytes, at) {
        relocs_from(bytes, at + le_u32(bytes, at + 4), 0)
    } else {
        let w = block_word(bytes, at, k);
        let rva = le_u32(bytes, at) + word_offset(w);
        if word_type(w) == REL_ABSOLUTE {
            relocs_from(bytes, at, k + 1)
        } else if rva > u32::MAX {
            Err(Error::Overflow)
        } else {
            cons(Reloc { kind: word_type(w) as u16, rva: rva as u32 }, relocs_from(bytes, at, k + 1))
        }
    }
}

/// The addresses to relocate are those of the entries that name one, in the same order.
pub proof fn lemma_relocs_name_rvas(bytes: Seq<u8>, at: int, k: int)
    ensures
        match relocs_from(bytes, at, k) {
            Ok(relocs) => rvas_from(bytes, at, k) == Ok::<Seq<u32>, Error>(
                Seq::new(relocs.len(), |i: int| relocs[i].rva),
            ),
            Err(e) => rvas_from(bytes, at, k) == Err::<Seq<u32>, Error>(e),
        },
    decreases bytes.len() - at, block_words(bytes, at) - k,
{
    if at == bytes.len() {
        assert(Seq::<u32>::empty() =~= Seq::new(0, |i: int| Seq::<Reloc>::empty()[i].rva));
    } else if !block_ok(bytes, at) || k < 0 {
    } else if k >= block_words(bytes, at) {
        lemma_relocs_name_rvas(bytes, at + le_u32(bytes, at + 4), 0);
    } else {
        lemma_relocs_name_rvas(bytes, at, k + 1);
        let w = block_word(bytes, at, k);
        let rva = le_u32(bytes, at) + word_offset(w);
        if word_type(w) != REL_ABSOLUTE && rva <= u32::MAX {
            if let Ok(rest) = relocs_from(bytes, at, k + 1) {
                let first = Reloc { kind: word_type(w) as u16, rva: rva as u32 };
                let all = seq![first] + rest;
                assert(seq![rva as u32] + Seq::new(rest.len(), |i: int| rest[i].rva) =~= Seq::new(
                    all.len(),
                    |i: int| all[i].rva,
                ));
            }
        }
    }
}

/// `r` with `prefix` put in front of what it holds.
pub open spec fn prepend(prefix: Seq<u32>, r: Result<Seq<u32>, Error>) -> Result<Seq<u32>, Error> {
    match r {
        Ok(rest) => Ok(prefix + rest),
        Err(e) => Err(e),
    }
}

/// The addresses that the directory names from entry `k` of the block at `at` on, in order,
/// padding entries left out.
///
/// A block that is not sound makes the whole `Invalid`; an entry whose address does not fit
/// in 32 bits makes it `Overflow`.
pub open spec fn rvas_from(bytes: Seq<u8>, at: int, k: int) -> Result<Seq<u32>, Error>
    decreases bytes.len() - at, block_words(bytes, at) - k,
{
    if at == bytes.len() {
        Ok(Seq::empty())
    } else if !block_ok(bytes, at) || k < 0 {
        Err(Error::Invalid)
    } else if k >= block_words(bytes, at) {
        rvas_from(bytes, at + le_u32(bytes, at + 4), 0)
    } else {
        let w = block_word(bytes, at, k);
        let rva = le_u32(bytes, at) + word_offset(w);
        if word_type(w) == REL_ABSOLUTE {
            rvas_from(bytes, at, k + 1)
        } else if rva > u32::MAX {
            Err(Error::Overflow)
        } else {
            prepend(seq![rva as u32], rvas_from(bytes, at, k + 1))
        }
    }
}

/// How many entries the blocks from `at` on hold, from entry `k` of the first.
pub open spec fn entries_from(bytes: Seq<u8>, at: int, k: int) -> int
    decreases bytes.len() - at, block_words(bytes, at) - k,
{
    if at == bytes.len() || !block_ok(bytes, at) || k < 0 {
        0
    } else if k >= block_words(bytes, at) {
        entries_from(bytes, at + le_u32(bytes, at + 4), 0)
    } else {
        1 + entries_from(bytes, at, k + 1)
    }
}

/// How many of those entries are padding.
pub open spec fn padding_from(bytes: Seq<u8>, at: int, k: int) -> int
    decreases bytes.len() - at, block_words(bytes, at) - k,
{
    if at == bytes.len() || !block_ok(bytes, at) || k < 0 {
        0
    } else if k >= block_words(bytes, at) {
        padding_from(bytes, at + le_u32(bytes, at + 4), 0)
    } else if word_type(block_word(bytes, at, k)) == REL_ABSOLUTE {
        1 + padding_from(bytes, at, k + 1)
    } else {
        padding_from(bytes, at, k + 1)
    }
}

/// The directory names as many addresses as it has entries that are not padding.
pub proof fn lemma_rva_count(bytes: Seq<u8>, at: int, k: int)
    requires
        rvas_from(bytes, at, k) is Ok,
    ensures
        rvas_from(bytes, at, k)->Ok_0.len() == entries_from(bytes, at, k) - padding_from(
            bytes,
            at,
            k,
        ),
    decreases bytes.len() - at, block_words(bytes, at) - k,
{
    if at == bytes.len() {
    } else if k >= block_words(bytes, at) {
        lemma_rva_count(bytes, at + le_u32(bytes, at + 4), 0);
    } else {
        lemma_rva_count(bytes, at, k + 1);
    }
}

/// Where no address is named twice, the set of addresses named has as many members as the
/// directory has entries that are not padding.
pub proof fn lemma_relocation_completeness(bytes: Seq<u8>)
    requires
        rvas_from(bytes, 0, 0) is Ok,
        rvas_from(bytes, 0, 0)->Ok_0.no_duplicates(),
    ensures
        rvas_from(bytes, 0, 0)->Ok_0.to_set().len() == entries_from(bytes, 0, 0) - padding_from(
            bytes,
            0,
            0,
        ),
{
    lemma_rva_count(bytes, 0, 0);
    rvas_from(bytes, 0, 0)->Ok_0.unique_seq_to_set();
}

impl<'a> BaseRelocs<'a> {
    /// Reads what lies at offset `at` of the directory: `None` at its end, else the block.
    pub fn block_at(&self, at: usize) -> (r: Result<Option<Block>, Error>)
        ensures
            r == spec_block_at(self.bytes@, at as int),
    {
        let len: usize = self.bytes.len();
        if at == len {
            return Ok(None);
        }
        if at > len || len - at < 8 {
            return Err(Error::Invalid);
        }
        let size: u32 = read_u32(self.bytes, at + 4);
        if size < 8 || size as usize > len - at {
            return Err(Error::Invalid);
        }
        Ok(Some(Block { offset: at, page_rva: read_u32(self.bytes, at), size }))
    }

    /// The `k`-th entry of a block: its type, and the address it names.
    ///
    /// `Invalid` where the block is not one of this directory or has no such entry,
    /// `Overflow` where the address does not fit in 32 bits.
    pub fn entry(&self, block: &Block, k: u32) -> (r: Result<Reloc, Error>)
        ensures
            r == spec_entry(self.bytes@, *block, k as int),
    {
        match self.block_at(block.offset) {
            Ok(Some(found)) => {
                if found.page_rva != block.page_rva || found.size != block.size {
                    return Err(Error::Invalid);
                }
            },
            _ => {
                return Err(Error::Invalid);
            },
        }
        let len: usize = self.bytes.len();
        assert(block_ok(self.bytes@, block.offset as int));
        if k >= (block.size - 8) / 2 {
            return Err(Error::Invalid);
        }
        let w: u16 = read_u16(self.bytes, block.offset + 8 + 2 * k as usize);
        let offset: u32 = (w % 0x1000) as u32;
        if offset > u32::MAX - block.page_rva {
            return Err(Error::Overflow);
        }
        Ok(Reloc { kind: w / 0x1000, rva: block.page_rva + offset })
    }

    /// Every block of the directory in order, each with its entries.
    pub fn blocks(&self) -> (r: Result<Vec<RelocBlock>, Error>)
        ensures
            match blocks_from(self.bytes@, 0) {
                Err(e) => r == Err::<Vec<RelocBlock>, Error>(e),
                Ok(blocks) => r matches Ok(read) && blocks_match(self.bytes@, blocks, read@),
            },
    {
        let mut out: Vec<RelocBlock> = Vec::new();
        let len: usize = self.bytes.len();
        let mut at: usize = 0;
        let ghost mut done: Seq<Block> = Seq::empty();
        proof {
            lemma_after_empty(blocks_from(self.bytes@, 0));
        }
        loop
            invariant
                at <= len,
                len == self.bytes.len(),
                blocks_from(self.bytes@, 0) == after(done, blocks_from(self.bytes@, at as int)),
                blocks_match(self.bytes@, done, out@),
            decreases len - at,
        {
            let block = match self.block_at(at) {
                Ok(Some(b)) => b,
                Ok(None) => {
                    proof {
                        assert(done + Seq::<Block>::empty() =~= done);
                    }
                    return Ok(out);
                },
                Err(e) => {
                    return Err(e);
                },
            };
            let words: u32 = (block.size - 8) / 2;
            let mut entries: Vec<Result<Reloc, Error>> = Vec::new();
            let mut k: u32 = 0;
            while k < words
                invariant
                    k <= words,
                    words == block_words(self.bytes@, block.offset as int),
                    entries@.len() == k,
                    forall|j: int|
                        0 <= j < k ==> #[trigger] entries@[j] == spec_entry(self.bytes@, block, j),
                decreases words - k,
            {
                entries.push(self.entry(&block, k));
                k = k + 1;
            }
            let read = RelocBlock { block, entries };
            proof {
                lemma_after_cons(done, block, blocks_from(self.bytes@, at + block.size));
                assert(block_matches(self.bytes@, block, read));
                done = done.push(block);
            }
            out.push(read);
            at = at + block.size as usize;
        }
    }

    /// The entries that name an address, in directory order, each with its type.
    pub fn relocs(&self) -> (r: Result<Vec<Reloc>, Error>)
        ensures
            match r {
                Ok(v) => relocs_from(self.bytes@, 0, 0) == Ok::<Seq<Reloc>, Error>(v@),
                Err(e) => relocs_from(self.bytes@, 0, 0) == Err::<Seq<Reloc>, Error>(e),
            },
    {
        let mut out: Vec<Reloc> = Vec::new();
        let len: usize = self.bytes.len();
        let mut at: usize = 0;
        proof {
            lemma_after_empty(relocs_from(self.bytes@, 0, 0));
        }
        while at < len
            invariant
                at <= len,
                len == self.bytes.len(),
                relocs_from(self.bytes@, 0, 0) == after(out@, relocs_from(self.bytes@, at as int, 0)),
            decreases len - at,
        {
            let block = match self.block_at(at) {
                Ok(Some(b)) => b,
                Ok(None) => {
                    return Ok(out);
                },
                Err(e) => {
                    return Err(e);
                },
            };
            let words: usize = (block.size as usize - 8) / 2;
            let mut k: usize = 0;
            while k < words
                invariant
                    k <= words,
                    at < len,
                    len == self.bytes.len(),
                    block_ok(self.bytes@, at as int),
                    words == block_words(self.bytes@, at as int),
                    block.page_rva == le_u32(self.bytes@, at as int),
                    relocs_from(self.bytes@, 0, 0) == after(
                        out@,
                        relocs_from(self.bytes@, at as int, k as int),
                    ),
                decreases words - k,
            {
                let w: u16 = read_u16(self.bytes, at + 8 + 2 * k);
                if w / 0x1000 != REL_ABSOLUTE {
                    let offset: u32 = (w % 0x1000) as u32;
                    if offset > u32::MAX - block.page_rva {
                        return Err(Error::Overflow);
                    }
                    let reloc = Reloc { kind: w / 0x1000, rva: block.page_rva + offset };
                    proof {
                        lemma_after_cons(out@, reloc, relocs_from(self.bytes@, at as int, k + 1));
                    }
                    out.push(reloc);
                }
                k = k + 1;
            }
            at = at + block.size as usize;
        }
        proof {
            assert(out@ + Seq::<Reloc>::empty() =~= out@);
        }
        Ok(out)
    }

    /// The addresses to relocate, in directory order.
    pub fn rvas(&self) -> (r: Result<Vec<u32>, Error>)
        ensures
            match r {
                Ok(v) => rvas_from(self.bytes@, 0, 0) == Ok::<Seq<u32>, Error>(v@),
                Err(e) => rvas_from(self.bytes@, 0, 0) == Err::<Seq<u32>, Error>(e),
            },
    {
        let mut out: Vec<u32> = Vec::new();
        let len: usize = self.bytes.len();
        let mut at: usize = 0;
        assert(prepend(out@, rvas_from(self.bytes@, 0, 0)) == rvas_from(self.bytes@, 0, 0)) by {
            if let Ok(rest) = rvas_from(self.bytes@, 0, 0) {
                assert(out@ + rest =~= rest);
            }
        }
        while at < len
            invariant
                at <= len,
                len == self.bytes.len(),
                rvas_from(self.bytes@, 0, 0) == prepend(out@, rvas_from(self.bytes@, at as int, 0)),
            decreases len - at,
        {
            let block = match self.block_at(at) {
                Ok(Some(b)) => b,
                Ok(None) => {
                    return Ok(out);
                },
                Err(e) => {
                    return Err(e);
                },
            };
            let words: usize = (block.size as usize - 8) / 2;
            let mut k: usize = 0;
            while k < words
                invariant
                    k <= words,
                    at < len,
                    len == self.bytes.len(),
                    block_ok(self.bytes@, at as int),
                    words == block_words(self.bytes@, at as int),
                    block.page_rva == le_u32(self.bytes@, at as int),
                    rvas_from(self.bytes@, 0, 0) == prepend(
                        out@,
                        rvas_from(self.bytes@, at as int, k as int),
                    ),
                decreases words - k,
            {
                let w: u16 = read_u16(self.bytes, at + 8 + 2 * k);
                if w / 0x1000 != REL_ABSOLUTE {
                    let offset: u32 = (w % 0x1000) as u32;
                    if offset > u32::MAX - block.page_rva {
                        return Err(Error::Overflow);
                    }
                    let ghost before = out@;
                    out.push(block.page_rva + offset);
                    proof {
                        if let Ok(rest) = rvas_from(self.bytes@, at as int, k + 1) {
                            assert(before + (seq![(block.page_rva + offset) as u32] + rest)
                                =~= out@ + rest);
                        }
                    }
                }
                k = k + 1;
            }
            at = at + block.size as usize;
        }
        Ok(out)
    }
}

impl<'a> Image<'a> {
    /// The bytes a data directory entry spans, or `Null` where the image has no such directory.
    pub open spec fn spec_directory_bytes(&self, index: int) -> Result<Seq<u8>, Error> {
        let dir = self.headers.data_directories@[index];
        if dir.rva == 0 {
            Err(Error::Null)
        } else {
            match self.spec_slice(dir.rva, dir.size as usize) {
                Ok(o) => Ok(self.data@.subrange(o as int, o + dir.size)),
                Err(e) => Err(e),
            }
        }
    }

    /// Opens the base relocation directory.
    pub fn base_relocs(&self) -> (r: Result<BaseRelocs<'a>, Error>)
        requires
            self.wf(),
        ensures
            match r {
                Ok(d) => self.spec_directory_bytes(DIR_BASERELOC as int) == Ok::<Seq<u8>, Error>(
                    d.bytes@,
                ),
                Err(e) => self.spec_directory_bytes(DIR_BASERELOC as int) == Err::<Seq<u8>, Error>(
                    e,
                ),
            },
    {
        let dir = self.directory(DIR_BASERELOC);
        if dir.rva == 0 {
            return Err(Error::Null);
        }
        match self.derva_bytes(dir.rva, dir.size as usize) {
            Ok(bytes) => Ok(BaseRelocs { bytes }),
            Err(e) => Err(e),
        }
    }
}

} // verus!
