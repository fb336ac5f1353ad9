use vstd::prelude::*;
use crate::bytes::{le_u16, le_u32, read_u16, read_u32};
use crate::error::Error;
use crate::image::{Image, DIR_RESOURCE};
use crate::imports::after;

verus! {

/// How many levels of directories the tree may have.
pub const MAX_LEVELS: u8 = 3;

/// The bit that marks a name in `name_or_id`, and a directory in `offset_to_data`.
pub const HIGH_BIT: u32 = 0x8000_0000;

/// The resource directory: its bytes, to which every offset in the tree is relative.
#[derive(Clone, Copy, Debug)]
pub struct Resources<'a> {
    pub bytes: &'a [u8],
}

/// A directory of the tree: a cursor that knows where it stands.
#[derive(Clone, Copy, Debug, PartialEq, Eq, Structural)]
pub struct Dir {
    /// Offset of the directory in the resource bytes.
    pub offset: u32,
    /// The level of the directory: 1 for the root.
    pub depth: u8,
    /// Offset of the directory above, at level 2 and 3.
    pub above: u32,
    /// Offset of the directory above that, at level 3.
    pub top: u32,
    pub characteristics: u32,
    pub time_date_stamp: u32,
    pub major_version: u16,
    pub minor_version: u16,
    pub number_of_named_entries: u16,
    pub number_of_id_entries: u16,
}

/// One entry of a directory.
#[derive(Clone, Copy, Debug, PartialEq, Eq, Structural)]
pub struct Entry {
    pub name_or_id: u32,
    pub offset_to_data: u32,
}

/// What a leaf of the tree points at.
#[derive(Clone, Copy, Debug, PartialEq, Eq, Structural)]
pub struct DataEntry {
    /// RVA of the resource's bytes.
    pub rva: u32,
    pub size: u32,
    pub code_page: u32,
    pub reserved: u32,
}

/// A leaf with the path that leads to it: the `name_or_id` of the entry followed at each
/// level, zero for the levels below the leaf.
#[derive(Clone, Copy, Debug, PartialEq, Eq, Structural)]
pub struct Leaf {
    /// The level of the directory that holds the leaf.
    pub depth: u8,
    pub kind: u32,
    pub name: u32,
    pub language: u32,
    pub data: DataEntry,
}

impl Entry {
    /// Whether the entry is named by a string rather than a number.
    pub open spec fn spec_is_named(&self) -> bool {
        self.name_or_id >= HIGH_BIT
    }

    /// Whether the entry leads to a directory rather than to data.
    pub open spec fn spec_is_dir(&self) -> bool {
        self.offset_to_data >= HIGH_BIT
    }

    /// Offset of what the entry leads to.
    pub open spec fn spec_target(&self) -> int {
        if self.offset_to_data >= HIGH_BIT {
            self.offset_to_data - HIGH_BIT
        } else {
            self.offset_to_data as int
        }
    }

    /// Offset of the entry's name, if it is named.
    pub open spec fn spec_name_offset(&self) -> int {
        self.name_or_id - HIGH_BIT
    }

    /// Tells whether the entry is named by a string rather than a number.
    pub fn is_named(&self) -> (r: bool)
        ensures
            r == self.spec_is_named(),
    {
        self.name_or_id >= HIGH_BIT
    }

    /// Tells whether the entry leads to a directory rather than to data.
    pub fn is_dir(&self) -> (r: bool)
        ensures
            r == self.spec_is_dir(),
    {
        self.offset_to_data >= HIGH_BIT
    }

    /// Offset of what the entry leads to.
    pub fn target(&self) -> (r: u32)
        ensures
            r == self.spec_target(),
    {
        if self.offset_to_data >= HIGH_BIT {
            self.offset_to_data - HIGH_BIT
        } else {
            self.offset_to_data
        }
    }
}

impl Dir {
    /// How many entries the directory has.
    pub open spec fn spec_count(&self) -> int {
        self.number_of_named_entries + self.number_of_id_entries
    }

    /// How many entries the directory has.
    pub fn count(&self) -> (r: u32)
        ensures
            r == self.spec_count(),
    {
        self.number_of_named_entries as u32 + self.number_of_id_entries as u32
    }

    /// Whether the directory at `offset` is this one or one above it.
    pub open spec fn spec_on_path(&self, offset: int) -> bool {
        offset == self.offset || (self.depth >= 2 && offset == self.above) || (self.depth >= 3
            && offset == self.top)
    }
}

/// The directory at `offset`, at level `depth` below the directories at `above` and `top`.
///
/// `Invalid` where the level is not one of the three, or the directory with its entries
/// leaves the resource bytes.
pub open spec fn spec_dir(bytes: Seq<u8>, offset: u32, depth: u8, above: u32, top: u32) -> Result<
    Dir,
    Error,
> {
    let count = le_u16(bytes, offset + 12) + le_u16(bytes, offset + 14);
    if depth < 1 || depth > MAX_LEVELS {
        Err(Error::Invalid)
    } else if offset + 16 > bytes.len() {
        Err(Error::Invalid)
    } else if offset + 16 + 8 * count > bytes.len() {
        Err(Error::Invalid)
    } else {
        Ok(
            Dir {
                offset,
                depth,
                above,
                top,
                characteristics: le_u32(bytes, offset as int) as u32,
                time_date_stamp: le_u32(bytes, offset + 4) as u32,
                major_version: le_u16(bytes, offset + 8) as u16,
                minor_version: le_u16(bytes, offset + 10) as u16,
                number_of_named_entries: le_u16(bytes, offset + 12) as u16,
                number_of_id_entries: le_u16(bytes, offset + 14) as u16,
            },
        )
    }
}

/// The `index`-th entry of a directory; `Invalid` past its last entry or past the bytes.
pub open spec fn spec_entry(bytes: Seq<u8>, dir: Dir, index: int) -> Result<Entry, Error> {
    let at = dir.offset + 16 + 8 * index;
    if index < 0 || index >= dir.spec_count() || at + 8 > bytes.len() {
        Err(Error::Invalid)
    } else {
        Ok(
            Entry {
                name_or_id: le_u32(bytes, at) as u32,
                offset_to_data: le_u32(bytes, at + 4) as u32,
            },
        )
    }
}

/// The directory an entry of `dir` leads to.
///
/// `Invalid` where the entry leads to data, the directory would lie deeper than the third
/// level, or it is `dir` itself or a directory above `dir`.
pub open spec fn spec_open(bytes: Seq<u8>, dir: Dir, entry: Entry) -> Result<Dir, Error> {
    if !entry.spec_is_dir() || dir.depth >= MAX_LEVELS || dir.spec_on_path(entry.spec_target()) {
        Err(Error::Invalid)
    } else {
        spec_dir(bytes, entry.spec_target() as u32, (dir.depth + 1) as u8, dir.offset, dir.above)
    }
}

/// The data an entry leads to; `Invalid` where it leads to a directory or past the bytes.
pub open spec fn spec_data(bytes: Seq<u8>, entry: Entry) -> Result<DataEntry, Error> {
    let at = entry.spec_target();
    if entry.spec_is_dir() || at + 16 > bytes.len() {
        Err(Error::Invalid)
    } else {
        Ok(
            DataEntry {
                rva: le_u32(bytes, at) as u32,
                size: le_u32(bytes, at + 4) as u32,
                code_page: le_u32(bytes, at + 8) as u32,
                reserved: le_u32(bytes, at + 12) as u32,
            },
        )
    }
}

/// The name of an entry: the UTF-16 units of the counted string it points at.
///
/// `Invalid` where the entry has a number for a name, or the string leaves the bytes.
pub open spec fn spec_name(bytes: Seq<u8>, entry: Entry) -> Result<Seq<u16>, Error> {
    let at = entry.spec_name_offset();
    if !entry.spec_is_named() || at + 2 > bytes.len() {
        Err(Error::Invalid)
    } else if at + 2 + 2 * le_u16(bytes, at) > bytes.len() {
        Err(Error::Invalid)
    } else {
        Ok(Seq::new(le_u16(bytes, at) as nat, |i: int| le_u16(bytes, at + 2 + 2 * i) as u16))
    }
}

/// The leaf that the entry `entry` of `dir` is, on the path given so far.
pub open spec fn leaf_of(dir: Dir, entry: Entry, kind: u32, name: u32, data: DataEntry) -> Leaf {
    if dir.depth == 1 {
        Leaf { depth: 1, kind: entry.name_or_id, name: 0, language: 0, data }
    } else if dir.depth == 2 {
        Leaf { depth: 2, kind, name: entry.name_or_id, language: 0, data }
    } else {
        Leaf { depth: dir.depth, kind, name, language: entry.name_or_id, data }
    }
}

/// The leaves below the entries of `dir` from the `index`-th on, in the order of the tree;
/// the first fault met on the way is the fault of the whole.
pub open spec fn leaves_from(bytes: Seq<u8>, dir: Dir, index: int, kind: u32, name: u32) -> Result<
    Seq<Leaf>,
    Error,
>
    decreases MAX_LEVELS - dir.depth, dir.spec_count() - index,
{
    if index < 0 || index >= dir.spec_count() {
        Ok(Seq::empty())
    } else {
        match spec_entry(bytes, dir, index) {
            Err(e) => Err(e),
            Ok(entry) => {
                let below = if entry.spec_is_dir() {
                    match spec_open(bytes, dir, entry) {
                        Err(e) => Err(e),
                        Ok(child) => leaves_from(
                            bytes,
                            child,
                            0,
                            if dir.depth == 1 {
                                entry.name_or_id
                            } else {
                                kind
                            },
                            if dir.depth == 2 {
                                entry.name_or_id
                            } else {
                                name
                            },
                        ),
                    }
                } else {
                    match spec_data(bytes, entry) {
                        Err(e) => Err(e),
                        Ok(data) => Ok(seq![leaf_of(dir, entry, kind, name, data)]),
                    }
                };
                match below {
                    Err(e) => Err(e),
                    Ok(first) => after(first, leaves_from(bytes, dir, index + 1, kind, name)),
                }
            },
        }
    }
}

impl<'a> Resources<'a> {
    /// Reads the directory at `offset`, at level `depth` below those at `above` and `top`.
    pub fn dir_at(&self, offset: u32, depth: u8, above: u32, top: u32) -> (r: Result<Dir, Error>)
        ensures
            r == spec_dir(self.bytes@, offset, depth, above, top),
    {
        let len: usize = self.bytes.len();
        let at: usize = offset as usize;
        if depth < 1 || depth > MAX_LEVELS {
            return Err(Error::Invalid);
        }
        if at > len || len - at < 16 {
            return Err(Error::Invalid);
        }
        let named: u16 = read_u16(self.bytes, at + 12);
        let ids: u16 = read_u16(self.bytes, at + 14);
        let count: usize = named as usize + ids as usize;
        if (len - at - 16) / 8 < count {
            return Err(Error::Invalid);
        }
        Ok(
            Dir {
                offset,
                depth,
                above,
                top,
                characteristics: read_u32(self.bytes, at),
                time_date_stamp: read_u32(self.bytes, at + 4),
                major_version: read_u16(self.bytes, at + 8),
                minor_version: read_u16(self.bytes, at + 10),
                number_of_named_entries: named,
                number_of_id_entries: ids,
            },
        )
    }

    /// The root of the tree.
    pub fn root(&self) -> (r: Result<Dir, Error>)
        ensures
            r == spec_dir(self.bytes@, 0, 1, 0, 0),
    {
        self.dir_at(0, 1, 0, 0)
    }

    /// Reads the `index`-th entry of a directory.
    pub fn entry(&self, dir: &Dir, index: u32) -> (r: Result<Entry, Error>)
        ensures
            r == spec_entry(self.bytes@, *dir, index as int),
    {
        let len: usize = self.bytes.len();
        if index >= dir.count() {
            return Err(Error::Invalid);
        }
        let at: u64 = dir.offset as u64 + 16 + 8 * index as u64;
        if at + 8 > len as u64 {
            return Err(Error::Invalid);
        }
        let at: usize = at as usize;
        Ok(Entry { name_or_id: read_u32(self.bytes, at), offset_to_data: read_u32(self.bytes, at + 4) })
    }

    /// Steps down into the directory an entry leads to.
    pub fn open(&self, dir: &Dir, entry: &Entry) -> (r: Result<Dir, Error>)
        ensures
            r == spec_open(self.bytes@, *dir, *entry),
    {
        if !entry.is_dir() || dir.depth >= MAX_LEVELS {
            return Err(Error::Invalid);
        }
        let target: u32 = entry.target();
        if target == dir.offset || (dir.depth >= 2 && target == dir.above) || (dir.depth >= 3
            && target == dir.top) {
            return Err(Error::Invalid);
        }
        self.dir_at(target, dir.depth + 1, dir.offset, dir.above)
    }

    /// Reads the data entry a leaf leads to.
    pub fn data(&self, entry: &Entry) -> (r: Result<DataEntry, Error>)
        ensures
            r == spec_data(self.bytes@, *entry),
    {
        let len: usize = self.bytes.len();
        let at: usize = entry.target() as usize;
        if entry.is_dir() || at > len || len - at < 16 {
            return Err(Error::Invalid);
        }
        Ok(
            DataEntry {
                rva: read_u32(self.bytes, at),
                size: read_u32(self.bytes, at + 4),
                code_page: read_u32(self.bytes, at + 8),
                reserved: read_u32(self.bytes, at + 12),
            },
        )
    }

    /// Reads the name of a named entry, as UTF-16 units.
    pub fn name(&self, entry: &Entry) -> (r: Result<Vec<u16>, Error>)
        ensures
            match r {
                Ok(v) => spec_name(self.bytes@, *entry) == Ok::<Seq<u16>, Error>(v@),
                Err(e) => spec_name(self.bytes@, *entry) == Err::<Seq<u16>, Error>(e),
            },
    {
        let len: usize = self.bytes.len();
        if !entry.is_named() {
            return Err(Error::Invalid);
        }
        let at: usize = (entry.name_or_id - HIGH_BIT) as usize;
        if at > len || len - at < 2 {
            return Err(Error::Invalid);
        }
        let count: usize = read_u16(self.bytes, at) as usize;
        if (len - at - 2) / 2 < count {
            return Err(Error::Invalid);
        }
        let mut out: Vec<u16> = Vec::new();
        let mut i: usize = 0;
        while i < count
            invariant
                i <= count,
                at + 2 + 2 * count <= len,
                len == self.bytes.len(),
                out@.len() == i,
                forall|k: int| 0 <= k < i ==> out@[k] == le_u16(self.bytes@, at + 2 + 2 * k) as u16,
            decreases count - i,
        {
            out.push(read_u16(self.bytes, at + 2 + 2 * i));
            i = i + 1;
        }
        assert(out@ =~= Seq::new(
            count as nat,
            |i: int| le_u16(self.bytes@, at + 2 + 2 * i) as u16,
        ));
        Ok(out)
    }

    /// Every leaf of the tree with its path, in the order of the tree.
    pub fn leaves(&self) -> (r: Result<Vec<Leaf>, Error>)
        ensures
            match spec_dir(self.bytes@, 0, 1, 0, 0) {
                Err(e) => r == Err::<Vec<Leaf>, Error>(e),
                Ok(root) => match r {
                    Ok(v) => leaves_from(self.bytes@, root, 0, 0, 0) == Ok::<Seq<Leaf>, Error>(v@),
                    Err(e) => leaves_from(self.bytes@, root, 0, 0, 0) == Err::<Seq<Leaf>, Error>(e),
                },
            },
    {
        let root = match self.root() {
            Ok(d) => d,
            Err(e) => {
                return Err(e);
            },
        };
        let mut out: Vec<Leaf> = Vec::new();
        match self.collect(&root, 0, 0, &mut out) {
            Ok(()) => {
                assert(Seq::<Leaf>::empty() + out@ =~= out@);
                Ok(out)
            },
            Err(e) => Err(e),
        }
    }

    /// Appends to `out` the leaves below `dir`.
    fn collect(&self, dir: &Dir, kind: u32, name: u32, out: &mut Vec<Leaf>) -> (r: Result<
        (),
        Error,
    >)
        requires
            1 <= dir.depth <= MAX_LEVELS,
        ensures
            match leaves_from(self.bytes@, *dir, 0, kind, name) {
                Ok(found) => r is Ok && final(out)@ == old(out)@ + found,
                Err(e) => r == Err::<(), Error>(e),
            },
        decreases MAX_LEVELS - dir.depth,
    {
        let count: u32 = dir.count();
        let mut index: u32 = 0;
        let ghost mut found: Seq<Leaf> = Seq::empty();
        proof {
            crate::imports::lemma_after_empty(leaves_from(self.bytes@, *dir, 0, kind, name));
            assert(old(out)@ + found =~= old(out)@);
        }
        while index < count
            invariant
                index <= count,
                count == dir.spec_count(),
                1 <= dir.depth <= MAX_LEVELS,
                out@ == old(out)@ + found,
                leaves_from(self.bytes@, *dir, 0, kind, name) == after(
                    found,
                    leaves_from(self.bytes@, *dir, index as int, kind, name),
                ),
            decreases count - index,
        {
            let entry = match self.entry(dir, index) {
                Ok(e) => e,
                Err(e) => {
                    return Err(e);
                },
            };
            let ghost rest = leaves_from(self.bytes@, *dir, index + 1, kind, name);
            let ghost before = out@;
            if entry.is_dir() {
                let child = match self.open(dir, &entry) {
                    Ok(d) => d,
                    Err(e) => {
                        return Err(e);
                    },
                };
                let below_kind: u32 = if dir.depth == 1 {
                    entry.name_or_id
                } else {
                    kind
                };
                let below_name: u32 = if dir.depth == 2 {
                    entry.name_or_id
                } else {
                    name
                };
                match self.collect(&child, below_kind, below_name, out) {
                    Ok(()) => {},
                    Err(e) => {
                        return Err(e);
                    },
                }
                proof {
                    let below = leaves_from(self.bytes@, child, 0, below_kind, below_name)->Ok_0;
                    lemma_after_after(found, below, rest);
                    assert(before + below =~= old(out)@ + (found + below));
                    found = found + below;
                }
            } else {
                let data = match self.data(&entry) {
                    Ok(d) => d,
                    Err(e) => {
                        return Err(e);
                    },
                };
                let leaf = if dir.depth == 1 {
                    Leaf { depth: 1, kind: entry.name_or_id, name: 0, language: 0, data }
                } else if dir.depth == 2 {
                    Leaf { depth: 2, kind, name: entry.name_or_id, language: 0, data }
                } else {
                    Leaf { depth: dir.depth, kind, name, language: entry.name_or_id, data }
                };
                out.push(leaf);
                proof {
                    lemma_after_after(found, seq![leaf], rest);
                    assert(before.push(leaf) =~= old(out)@ + (found + seq![leaf]));
                    found = found + seq![leaf];
                }
            }
            index = index + 1;
        }
        proof {
            assert(found + Seq::<Leaf>::empty() =~= found);
        }
        Ok(())
    }
}

/// Putting two prefixes in front one after the other is putting their concatenation in
/// front.
pub proof fn lemma_after_after<T>(a: Seq<T>, b: Seq<T>, r: Result<Seq<T>, Error>)
    ensures
        after(a, after(b, r)) == after(a + b, r),
{
    if let Ok(rest) = r {
        assert(a + (b + rest) =~= (a + b) + rest);
    }
}

impl<'a> Image<'a> {
    /// Opens the resource directory.
    pub fn resources(&self) -> (r: Result<Resources<'a>, Error>)
        requires
            self.wf(),
        ensures
            match r {
                Ok(d) => self.spec_directory_bytes(DIR_RESOURCE as int) == Ok::<Seq<u8>, Error>(
                    d.bytes@,
                ),
                Err(e) => self.spec_directory_bytes(DIR_RESOURCE as int) == Err::<Seq<u8>, Error>(
                    e,
                ),
            },
    {
        let dir = self.directory(DIR_RESOURCE);
        if dir.rva == 0 {
            return Err(Error::Null);
        }
        match self.derva_bytes(dir.rva, dir.size as usize) {
            Ok(bytes) => Ok(Resources { bytes }),
            Err(e) => Err(e),
        }
    }
}

} // verus!
