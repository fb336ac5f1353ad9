use vstd::prelude::*;
use crate::bytes::as_signed32;
use crate::error::Error;
use crate::image::{align_up, round_up, Image};

verus! {

/// One instruction of a byte signature.
#[derive(Debug)]
pub enum Atom {
    /// The byte at the cursor must be this one; the cursor moves one byte on.
    Byte(u8),
    /// The cursor moves this many bytes on; they are not looked at.
    Skip(u32),
    /// The same as `Skip`.
    Wild(u32),
    /// The four bytes at the cursor are a signed offset from the end of those four bytes;
    /// the cursor moves to where it leads, which must be code.
    Jump4,
    /// The four bytes at the cursor are an RVA; the cursor moves there, which must be code.
    Rva4,
    /// The eight bytes at the cursor are a virtual address; the cursor moves to its RVA.
    Ptr8,
    /// The cursor is stored in this slot.
    Save(u8),
    /// The four bytes at the cursor must equal this slot under the mask.
    Check(u8, u32),
    /// The first of the alternatives that matches at the cursor is taken, and none after it.
    Case(Vec<Vec<Atom>>),
    /// The cursor moves up to the next multiple of this number.
    AlignUp(u32),
    /// A group of instructions, matched one after the other.
    Many(Vec<Atom>),
}

/// How deep alternatives and groups may nest.
pub const MAX_DEPTH: usize = 8;

/// The state of a match in progress.
pub struct State {
    /// Where in the image the match stands.
    pub cursor: u32,
    /// The save slots.
    pub save: Seq<u32>,
    /// Whether the cursor stands where the match began or where a `Jump4` or an `Rva4`
    /// led, with nothing having moved it since.
    pub anchored: bool,
    /// For each slot, whether what it holds was stored by a `Save` outside every
    /// alternative and group, while the cursor was anchored.
    pub outer: Seq<bool>,
}

impl<'a> Image<'a> {
    /// Whether `rva` lies inside an executable section.
    pub open spec fn spec_in_code(&self, rva: u32) -> bool {
        match self.spec_find_section(rva as int) {
            Some(i) => self.sections()[i].spec_is_executable(),
            None => false,
        }
    }

    /// Tells whether `rva` lies inside an executable section.
    pub fn in_code(&self, rva: u32) -> (r: bool)
        requires
            self.wf(),
        ensures
            r == self.spec_in_code(rva),
    {
        match self.find_section(rva) {
            Some(i) => self.headers.sections[i].is_executable(),
            None => false,
        }
    }
}

/// Where a `Jump4` at `cursor` that reads `word` leads, if that is an RVA.
pub open spec fn jump_target(cursor: u32, word: u32) -> Option<u32> {
    let target = cursor + 4 + as_signed32(word as int);
    if 0 <= target <= u32::MAX {
        Some(target as u32)
    } else {
        None
    }
}

/// What an instruction other than an alternative or a group makes of a state, at the given
/// depth of nesting; `None` where it does not match.
pub open spec fn step(image: &Image, atom: Atom, st: State, level: nat) -> Option<State> {
    match atom {
        Atom::Byte(b) => if image.spec_load_u8(st.cursor) == Ok::<u8, Error>(b) && st.cursor
            < u32::MAX {
            Some(State { cursor: (st.cursor + 1) as u32, anchored: false, ..st })
        } else {
            None
        },
        Atom::Skip(n) | Atom::Wild(n) => if st.cursor + n <= u32::MAX {
            Some(State { cursor: (st.cursor + n) as u32, anchored: false, ..st })
        } else {
            None
        },
        Atom::Jump4 => match image.spec_load_u32(st.cursor) {
            Ok(word) => match jump_target(st.cursor, word) {
                Some(target) => if image.spec_in_code(target) {
                    Some(State { cursor: target, anchored: true, ..st })
                } else {
                    None
                },
                None => None,
            },
            Err(_) => None,
        },
        Atom::Rva4 => match image.spec_load_u32(st.cursor) {
            Ok(target) => if image.spec_in_code(target) {
                Some(State { cursor: target, anchored: true, ..st })
            } else {
                None
            },
            Err(_) => None,
        },
        Atom::Ptr8 => match image.spec_load_u64(st.cursor) {
            Ok(va) => match image.spec_va_to_rva(va) {
                Ok(rva) => Some(State { cursor: rva, anchored: false, ..st }),
                Err(_) => None,
            },
            Err(_) => None,
        },
        Atom::Save(slot) => if slot as int >= st.save.len() {
            None
        } else {
            Some(
                State {
                    save: st.save.update(slot as int, st.cursor),
                    outer: st.outer.update(slot as int, level == 0 && st.anchored),
                    ..st
                },
            )
        },
        Atom::Check(slot, mask) => if slot as int >= st.save.len() {
            None
        } else {
            match image.spec_load_u32(st.cursor) {
                Ok(word) => if word & mask == st.save[slot as int] & mask {
                    Some(st)
                } else {
                    None
                },
                Err(_) => None,
            }
        },
        Atom::AlignUp(n) => if n != 0 && align_up(st.cursor as int, n as int) <= u32::MAX {
            Some(
                State { cursor: align_up(st.cursor as int, n as int) as u32, anchored: false, ..st },
            )
        } else {
            None
        },
        Atom::Case(_) | Atom::Many(_) => None,
    }
}

/// What the instructions of `pat` from the `i`-th on make of a state; `None` where one of
/// them does not match.
///
/// An alternative or a group nested deeper than `MAX_DEPTH` does not match.
pub open spec fn run(image: &Image, pat: Seq<Atom>, i: int, st: State, level: nat) -> Option<State>
    decreases MAX_DEPTH - level, 0int, pat.len() - i,
{
    if i < 0 || i >= pat.len() {
        Some(st)
    } else {
        let next = match pat[i] {
            Atom::Case(alts) => if level < MAX_DEPTH {
                run_case(image, alts@, 0, st, level + 1)
            } else {
                None
            },
            Atom::Many(group) => if level < MAX_DEPTH {
                run(image, group@, 0, st, level + 1)
            } else {
                None
            },
            other => step(image, other, st, level),
        };
        match next {
            Some(after) => run(image, pat, i + 1, after, level),
            None => None,
        }
    }
}

/// What the first of the alternatives from the `j`-th on that matches makes of a state.
pub open spec fn run_case(image: &Image, alts: Seq<Vec<Atom>>, j: int, st: State, level: nat) -> Option<
    State,
>
    decreases MAX_DEPTH - level, 1int, alts.len() - j,
{
    if j < 0 || j >= alts.len() {
        None
    } else {
        match run(image, alts[j]@, 0, st, level) {
            Some(after) => Some(after),
            None => run_case(image, alts, j + 1, st, level),
        }
    }
}

/// A copy of the slots.
fn copy_slots(save: &Vec<u32>) -> (r: Vec<u32>)
    ensures
        r@ == save@,
{
    let n: usize = save.len();
    let mut out: Vec<u32> = Vec::new();
    let mut i: usize = 0;
    while i < n
        invariant
            i <= n,
            n == save@.len(),
            out@ == save@.subrange(0, i as int),
        decreases n - i,
    {
        out.push(save[i]);
        i = i + 1;
        assert(out@ =~= save@.subrange(0, i as int));
    }
    assert(save@.subrange(0, n as int) =~= save@);
    out
}

/// Sets the slots to what `from` holds.
fn restore_slots(save: &mut Vec<u32>, from: &Vec<u32>)
    requires
        old(save)@.len() == from@.len(),
    ensures
        final(save)@ == from@,
{
    let n: usize = from.len();
    let mut i: usize = 0;
    while i < n
        invariant
            i <= n,
            n == from@.len(),
            save@.len() == n,
            forall|k: int| 0 <= k < i ==> save@[k] == from@[k],
        decreases n - i,
    {
        save.set(i, from[i]);
        i = i + 1;
    }
    assert(save@ =~= from@);
}

/// Where a `Jump4` at `cursor` that reads `word` leads.
fn jump(cursor: u32, word: u32) -> (r: Option<u32>)
    ensures
        r == jump_target(cursor, word),
{
    let rel: i64 = if word >= 0x8000_0000 {
        word as i64 - 0x1_0000_0000
    } else {
        word as i64
    };
    let target: i64 = cursor as i64 + 4 + rel;
    if 0 <= target && target <= u32::MAX as i64 {
        Some(target as u32)
    } else {
        None
    }
}

/// Runs one instruction that is neither an alternative nor a group.
fn exec_step(
    image: &Image,
    atom: &Atom,
    cursor: u32,
    save: &mut Vec<u32>,
    level: usize,
    Ghost(st): Ghost<State>,
) -> (r: Option<u32>)
    requires
        image.wf(),
        st.cursor == cursor,
        st.save == old(save)@,
    ensures
        match step(image, *atom, st, level as nat) {
            Some(after) => r == Some(after.cursor) && final(save)@ == after.save,
            None => r is None && final(save)@ == old(save)@,
        },
{
    match atom {
        Atom::Byte(b) => match image.load_u8(cursor) {
            Ok(found) => if found == *b && cursor < u32::MAX {
                Some(cursor + 1)
            } else {
                None
            },
            Err(_) => None,
        },
        Atom::Skip(n) => if *n <= u32::MAX - cursor {
            Some(cursor + *n)
        } else {
            None
        },
        Atom::Wild(n) => if *n <= u32::MAX - cursor {
            Some(cursor + *n)
        } else {
            None
        },
        Atom::Jump4 => match image.load_u32(cursor) {
            Ok(word) => match jump(cursor, word) {
                Some(target) => if image.in_code(target) {
                    Some(target)
                } else {
                    None
                },
                None => None,
            },
            Err(_) => None,
        },
        Atom::Rva4 => match image.load_u32(cursor) {
            Ok(target) => if image.in_code(target) {
                Some(target)
            } else {
                None
            },
            Err(_) => None,
        },
        Atom::Ptr8 => match image.load_u64(cursor) {
            Ok(va) => match image.va_to_rva(va) {
                Ok(rva) => Some(rva),
                Err(_) => None,
            },
            Err(_) => None,
        },
        Atom::Save(slot) => {
            let slot: usize = *slot as usize;
            if slot >= save.len() {
                None
            } else {
                save.set(slot, cursor);
                Some(cursor)
            }
        },
        Atom::Check(slot, mask) => {
            let slot: usize = *slot as usize;
            if slot >= save.len() {
                None
            } else {
                match image.load_u32(cursor) {
                    Ok(word) => if word & *mask == save[slot] & *mask {
                        Some(cursor)
                    } else {
                        None
                    },
                    Err(_) => None,
                }
            }
        },
        Atom::AlignUp(n) => {
            if *n == 0 {
                None
            } else {
                let target: u64 = round_up(cursor as u64, *n);
                if target <= u32::MAX as u64 {
                    Some(target as u32)
                } else {
                    None
                }
            }
        },
        Atom::Case(_) => None,
        Atom::Many(_) => None,
    }
}

/// Runs the instructions of `pat` from the cursor on. Where they match, the slots are what
/// the match left in them; where they do not, the slots hold no matter what.
fn exec_run(
    image: &Image,
    pat: &Vec<Atom>,
    cursor: u32,
    save: &mut Vec<u32>,
    level: usize,
    Ghost(start): Ghost<State>,
) -> (r: Option<u32>)
    requires
        image.wf(),
        level <= MAX_DEPTH,
        start.cursor == cursor,
        start.save == old(save)@,
    ensures
        final(save)@.len() == old(save)@.len(),
        match run(image, pat@, 0, start, level as nat) {
            Some(after) => r == Some(after.cursor) && final(save)@ == after.save,
            None => r is None,
        },
    decreases MAX_DEPTH - level, 0int,
{
    let n: usize = pat.len();
    let mut i: usize = 0;
    let mut at: u32 = cursor;
    let ghost mut st = start;
    while i < n
        invariant
            i <= n,
            n == pat@.len(),
            image.wf(),
            level <= MAX_DEPTH,
            st.cursor == at,
            st.save == save@,
            save@.len() == old(save)@.len(),
            run(image, pat@, 0, start, level as nat) == run(image, pat@, i as int, st, level as nat),
        decreases n - i,
    {
        let ghost next = match pat@[i as int] {
            Atom::Case(alts) => if level < MAX_DEPTH {
                run_case(image, alts@, 0, st, (level + 1) as nat)
            } else {
                None
            },
            Atom::Many(group) => if level < MAX_DEPTH {
                run(image, group@, 0, st, (level + 1) as nat)
            } else {
                None
            },
            other => step(image, other, st, level as nat),
        };
        let moved = match &pat[i] {
            Atom::Case(alts) => if level < MAX_DEPTH {
                exec_case(image, alts, at, save, level + 1, Ghost(st))
            } else {
                None
            },
            Atom::Many(group) => if level < MAX_DEPTH {
                exec_run(image, group, at, save, level + 1, Ghost(st))
            } else {
                None
            },
            other => exec_step(image, other, at, save, level, Ghost(st)),
        };
        match moved {
            Some(to) => {
                at = to;
                proof {
                    st = next->Some_0;
                }
            },
            None => {
                return None;
            },
        }
        i = i + 1;
    }
    Some(at)
}

/// Runs the first of the alternatives that matches at the cursor.
fn exec_case(
    image: &Image,
    alts: &Vec<Vec<Atom>>,
    cursor: u32,
    save: &mut Vec<u32>,
    level: usize,
    Ghost(start): Ghost<State>,
) -> (r: Option<u32>)
    requires
        image.wf(),
        level <= MAX_DEPTH,
        start.cursor == cursor,
        start.save == old(save)@,
    ensures
        final(save)@.len() == old(save)@.len(),
        match run_case(image, alts@, 0, start, level as nat) {
            Some(after) => r == Some(after.cursor) && final(save)@ == after.save,
            None => r is None,
        },
    decreases MAX_DEPTH - level, 1int,
{
    let n: usize = alts.len();
    let before = copy_slots(save);
    let mut j: usize = 0;
    while j < n
        invariant
            j <= n,
            n == alts@.len(),
            image.wf(),
            level <= MAX_DEPTH,
            save@ == before@,
            before@ == old(save)@,
            start.cursor == cursor,
            start.save == before@,
            run_case(image, alts@, 0, start, level as nat) == run_case(
                image,
                alts@,
                j as int,
                start,
                level as nat,
            ),
        decreases n - j,
    {
        match exec_run(image, &alts[j], cursor, save, level, Ghost(start)) {
            Some(to) => {
                return Some(to);
            },
            None => {
                restore_slots(save, &before);
            },
        }
        j = j + 1;
    }
    None
}

/// What matching `pat` at `start` gives, with the slots holding `save` beforehand.
pub open spec fn match_at(image: &Image, pat: Seq<Atom>, start: u32, save: Seq<u32>) -> Option<
    State,
> {
    run(image, pat, 0, begin(image, start, save), 0)
}

/// The state in which a match at `start` begins: the cursor is anchored if it stands in
/// code.
pub open spec fn begin(image: &Image, start: u32, save: Seq<u32>) -> State {
    State { cursor: start, save, anchored: image.spec_in_code(start), outer: no_marks(save.len()) }
}

/// No slot marked.
pub open spec fn no_marks(slots: nat) -> Seq<bool> {
    Seq::new(slots, |k: int| false)
}

/// Whether `pat` matches at `at`, and `at` is code.
pub open spec fn hit(image: &Image, pat: Seq<Atom>, save: Seq<u32>, at: int) -> bool {
    image.spec_in_code(at as u32) && match_at(image, pat, at as u32, save) is Some
}

/// The lowest RVA at or after `from` that is code and at which `pat` matches, with the
/// state the match ends in.
pub open spec fn first_match(image: &Image, pat: Seq<Atom>, save: Seq<u32>, from: int) -> Option<
    (u32, State),
>
    decreases 0x1_0000_0000 - from,
{
    if from < 0 || from > u32::MAX {
        None
    } else if hit(image, pat, save, from) {
        Some((from as u32, match_at(image, pat, from as u32, save)->Some_0))
    } else {
        first_match(image, pat, save, from + 1)
    }
}

/// Every RVA at or after `from` that is code and at which `pat` matches, in ascending
/// order, each with the slots its match leaves.
pub open spec fn all_matches(image: &Image, pat: Seq<Atom>, save: Seq<u32>, from: int) -> Seq<
    (u32, Seq<u32>),
>
    decreases 0x1_0000_0000 - from,
{
    if from < 0 || from > u32::MAX {
        Seq::empty()
    } else if hit(image, pat, save, from) {
        seq![(from as u32, match_at(image, pat, from as u32, save)->Some_0.save)] + all_matches(
            image,
            pat,
            save,
            from + 1,
        )
    } else {
        all_matches(image, pat, save, from + 1)
    }
}

/// The matches from `from` on lie at or after `from`, each after the one before it.
pub proof fn lemma_matches_ascend(image: &Image, pat: Seq<Atom>, save: Seq<u32>, from: int)
    requires
        0 <= from,
    ensures
        forall|i: int|
            0 <= i < all_matches(image, pat, save, from).len() ==> from <= (#[trigger] all_matches(
                image,
                pat,
                save,
                from,
            )[i]).0,
        forall|i: int, j: int|
            0 <= i < j < all_matches(image, pat, save, from).len() ==> (#[trigger] all_matches(
                image,
                pat,
                save,
                from,
            )[i]).0 < (#[trigger] all_matches(image, pat, save, from)[j]).0,
    decreases 0x1_0000_0000 - from,
{
    if from <= u32::MAX {
        lemma_matches_ascend(image, pat, save, from + 1);
        let rest = all_matches(image, pat, save, from + 1);
        let all = all_matches(image, pat, save, from);
        if hit(image, pat, save, from) {
            let first = (from as u32, match_at(image, pat, from as u32, save)->Some_0.save);
            assert(all == seq![first] + rest);
            assert forall|i: int| 0 <= i < all.len() implies from <= (#[trigger] all[i]).0 by {
                if i > 0 {
                    assert(all[i] == rest[i - 1]);
                }
            }
            assert forall|i: int, j: int| 0 <= i < j < all.len() implies (#[trigger] all[i]).0 < (
            #[trigger] all[j]).0 by {
                assert(all[j] == rest[j - 1]);
                if i > 0 {
                    assert(all[i] == rest[i - 1]);
                }
            }
        }
    }
}

/// A stretch of addresses without a hit can be skipped.
pub proof fn lemma_skip(image: &Image, pat: Seq<Atom>, save: Seq<u32>, a: int, b: int)
    requires
        0 <= a <= b <= 0x1_0000_0000,
        forall|q: int| a <= q < b ==> !#[trigger] hit(image, pat, save, q),
    ensures
        first_match(image, pat, save, a) == first_match(image, pat, save, b),
        all_matches(image, pat, save, a) == all_matches(image, pat, save, b),
    decreases b - a,
{
    if a < b {
        assert(!hit(image, pat, save, a));
        lemma_skip(image, pat, save, a + 1, b);
    }
}

/// What `first_match` finds is a hit at or after `from`, and the first of all matches from
/// there on.
pub proof fn lemma_first_match(image: &Image, pat: Seq<Atom>, save: Seq<u32>, from: int)
    requires
        0 <= from,
    ensures
        match first_match(image, pat, save, from) {
            Some((at, st)) => {
                &&& from <= at
                &&& hit(image, pat, save, at as int)
                &&& match_at(image, pat, at, save) == Some(st)
                &&& forall|q: int| from <= q < at ==> !#[trigger] hit(image, pat, save, q)
                &&& all_matches(image, pat, save, from) == seq![(at, st.save)] + all_matches(
                    image,
                    pat,
                    save,
                    at + 1,
                )
            },
            None => {
                &&& forall|q: int| from <= q <= u32::MAX ==> !#[trigger] hit(image, pat, save, q)
                &&& all_matches(image, pat, save, from) == Seq::<(u32, Seq<u32>)>::empty()
            },
        },
    decreases 0x1_0000_0000 - from,
{
    if from <= u32::MAX && !hit(image, pat, save, from) {
        lemma_first_match(image, pat, save, from + 1);
    }
}

impl<'a> Image<'a> {
    /// An address that lies past every section before the `upto`-th and before every
    /// section from it on is in no section, and so is not code.
    pub proof fn lemma_between_sections(&self, rva: u32, upto: int)
        requires
            self.wf(),
            0 <= upto <= self.sections().len(),
            forall|k: int|
                0 <= k < upto ==> (#[trigger] self.sections()[k]).virtual_address
                    + self.sections()[k].spec_extent() <= rva,
            upto < self.sections().len() ==> rva < self.sections()[upto].virtual_address,
        ensures
            !self.spec_in_code(rva),
    {
        crate::image::lemma_find_section(self.sections(), rva as int, 0);
        if let Some(i) = self.spec_find_section(rva as int) {
            if i > upto {
                self.lemma_sections_ascend(upto, i);
            }
        }
    }

    /// An address inside a section is code just when that section is executable.
    pub proof fn lemma_inside_section(&self, rva: u32, index: int)
        requires
            self.wf(),
            0 <= index < self.sections().len(),
            self.sections()[index].spec_contains(rva as int),
        ensures
            self.spec_in_code(rva) == self.sections()[index].spec_is_executable(),
    {
        crate::image::lemma_find_section(self.sections(), rva as int, 0);
        let i = self.spec_find_section(rva as int)->Some_0;
        self.lemma_section_unique(rva as int, i, index);
    }
}

/// A search for byte signatures in the executable sections of an image.
#[derive(Clone, Copy, Debug)]
pub struct Scanner<'a, 'b> {
    pub image: &'b Image<'a>,
}

/// One match of a signature.
#[derive(Clone, Debug, PartialEq, Eq)]
pub struct Found {
    /// Where the match begins.
    pub rva: u32,
    /// The slots as the match left them.
    pub save: Vec<u32>,
}

impl<'a> Image<'a> {
    /// A scanner over this image.
    pub fn scanner<'b>(&'b self) -> (r: Scanner<'a, 'b>)
        ensures
            r.image == self,
    {
        Scanner { image: self }
    }
}

impl<'a, 'b> Scanner<'a, 'b> {
    /// Finds the first match of `pat` at or after `from`, in ascending order of address
    /// over the executable sections, and leaves in `save` the slots of that match. Without
    /// a match `save` stays as it is.
    pub fn find_from(&self, pat: &Vec<Atom>, from: u32, save: &mut Vec<u32>) -> (r: Option<u32>)
        requires
            self.image.wf(),
            fits(pat@, 0, old(save)@.len() as int, 0),
        ensures
            match first_match(self.image, pat@, old(save)@, from as int) {
                Some((at, st)) => r == Some(at) && final(save)@ == st.save,
                None => r is None && final(save)@ == old(save)@,
            },
    {
        let image = self.image;
        let n: usize = image.headers.sections.len();
        let mut scratch = copy_slots(save);
        let mut pos: u32 = from;
        let mut si: usize = 0;
        while si < n
            invariant
                si <= n,
                n == image.sections().len(),
                image.wf(),
                image == self.image,
                from <= pos,
                save@ == old(save)@,
                scratch@.len() == save@.len(),
                first_match(image, pat@, save@, from as int) == first_match(
                    image,
                    pat@,
                    save@,
                    pos as int,
                ),
                forall|k: int|
                    0 <= k < si ==> (#[trigger] image.sections()[k]).virtual_address
                        + image.sections()[k].spec_extent() <= pos,
            decreases n - si,
        {
            let s = &image.headers.sections[si];
            proof {
                image.lemma_section_ok(si as int);
            }
            let end: u32 = s.virtual_address + s.extent();
            if pos < end {
                if pos < s.virtual_address {
                    proof {
                        // Nothing between the sections before this one and this one is code.
                        assert forall|q: int| pos <= q < s.virtual_address implies !#[trigger] hit(
                            image,
                            pat@,
                            save@,
                            q,
                        ) by {
                            image.lemma_between_sections(q as u32, si as int);
                        }
                        lemma_skip(image, pat@, save@, pos as int, s.virtual_address as int);
                    }
                    pos = s.virtual_address;
                }
                if s.is_executable() {
                    while pos < end
                        invariant
                            image.wf(),
                            image == self.image,
                            si < n,
                            n == image.sections().len(),
                            *s == image.sections()[si as int],
                            end == s.virtual_address + s.spec_extent(),
                            s.spec_is_executable(),
                            s.virtual_address <= pos <= end,
                            from <= pos,
                            save@ == old(save)@,
                            scratch@.len() == save@.len(),
                            first_match(image, pat@, save@, from as int) == first_match(
                                image,
                                pat@,
                                save@,
                                pos as int,
                            ),
                        decreases end - pos,
                    {
                        restore_slots(&mut scratch, save);
                        let found = exec_run(
                            image,
                            pat,
                            pos,
                            &mut scratch,
                            0,
                            Ghost(begin(image, pos, save@)),
                        );
                        proof {
                            image.lemma_inside_section(pos, si as int);
                        }
                        if found.is_some() {
                            assert(hit(image, pat@, save@, pos as int));
                            restore_slots(save, &scratch);
                            return Some(pos);
                        }
                        pos = pos + 1;
                    }
                } else {
                    proof {
                        assert forall|q: int| pos <= q < end implies !#[trigger] hit(
                            image,
                            pat@,
                            save@,
                            q,
                        ) by {
                            image.lemma_inside_section(q as u32, si as int);
                        }
                        lemma_skip(image, pat@, save@, pos as int, end as int);
                    }
                    pos = end;
                }
            }
            si = si + 1;
        }
        proof {
            assert forall|q: int| pos <= q < 0x1_0000_0000 implies !#[trigger] hit(
                image,
                pat@,
                save@,
                q,
            ) by {
                image.lemma_between_sections(q as u32, n as int);
            }
            lemma_skip(image, pat@, save@, pos as int, 0x1_0000_0000);
        }
        None
    }

    /// Tells whether `pat` matches anywhere in the executable sections, and leaves in
    /// `save` the slots of the first match.
    pub fn finds_code(&self, pat: &Vec<Atom>, save: &mut Vec<u32>) -> (r: bool)
        requires
            self.image.wf(),
            fits(pat@, 0, old(save)@.len() as int, 0),
        ensures
            match first_match(self.image, pat@, old(save)@, 0) {
                Some((at, st)) => r && final(save)@ == st.save,
                None => !r && final(save)@ == old(save)@,
            },
    {
        self.find_from(pat, 0, save).is_some()
    }

    /// Every match of `pat` in the executable sections, in ascending order of address,
    /// each with the slots it leaves when they hold `save` beforehand.
    pub fn matches_code(&self, pat: &Vec<Atom>, save: &Vec<u32>) -> (r: Vec<Found>)
        requires
            self.image.wf(),
            fits(pat@, 0, save@.len() as int, 0),
        ensures
            r@.len() == all_matches(self.image, pat@, save@, 0).len(),
            forall|k: int|
                0 <= k < r@.len() ==> (#[trigger] r@[k]).rva == all_matches(
                    self.image,
                    pat@,
                    save@,
                    0,
                )[k].0 && r@[k].save@ == all_matches(self.image, pat@, save@, 0)[k].1,
    {
        let mut out: Vec<Found> = Vec::new();
        let mut from: u32 = 0;
        let ghost all = all_matches(self.image, pat@, save@, 0);
        let ghost mut rest = all;
        loop
            invariant
                self.image.wf(),
                fits(pat@, 0, save@.len() as int, 0),
                all == all_matches(self.image, pat@, save@, 0),
                rest == all_matches(self.image, pat@, save@, from as int),
                out@.len() + rest.len() == all.len(),
                forall|k: int|
                    0 <= k < out@.len() ==> (#[trigger] out@[k]).rva == all[k].0 && out@[k].save@
                        == all[k].1,
                forall|k: int| 0 <= k < rest.len() ==> #[trigger] rest[k] == all[out@.len() + k],
            decreases 0x1_0000_0000 - from,
        {
            let mut slots = copy_slots(save);
            proof {
                lemma_first_match(self.image, pat@, save@, from as int);
            }
            match self.find_from(pat, from, &mut slots) {
                None => {
                    return out;
                },
                Some(at) => {
                    let ghost tail = all_matches(self.image, pat@, save@, at + 1);
                    assert(rest == seq![(at, slots@)] + tail);
                    assert(rest[0] == (at, slots@));
                    out.push(Found { rva: at, save: slots });
                    proof {
                        assert forall|k: int| 0 <= k < tail.len() implies #[trigger] tail[k]
                            == all[out@.len() + k] by {
                            assert(tail[k] == rest[k + 1]);
                        }
                        rest = tail;
                    }
                    if at == u32::MAX {
                        assert(tail.len() == 0);
                        return out;
                    }
                    from = at + 1;
                },
            }
        }
    }
}

/// Whether every slot that the instructions of `pat` from the `i`-th on name lies among
/// `slots` slots, as far down as matching goes.
pub open spec fn fits(pat: Seq<Atom>, i: int, slots: int, level: nat) -> bool
    decreases MAX_DEPTH - level, 0int, pat.len() - i,
{
    if i < 0 || i >= pat.len() {
        true
    } else {
        let here = match pat[i] {
            Atom::Save(slot) => slot < slots,
            Atom::Check(slot, _) => slot < slots,
            Atom::Case(alts) => level >= MAX_DEPTH || fits_case(alts@, 0, slots, level + 1),
            Atom::Many(group) => level >= MAX_DEPTH || fits(group@, 0, slots, level + 1),
            _ => true,
        };
        here && fits(pat, i + 1, slots, level)
    }
}

/// Whether every slot that the alternatives from the `j`-th on name lies among `slots`
/// slots.
pub open spec fn fits_case(alts: Seq<Vec<Atom>>, j: int, slots: int, level: nat) -> bool
    decreases MAX_DEPTH - level, 1int, alts.len() - j,
{
    if j < 0 || j >= alts.len() {
        true
    } else {
        fits(alts[j]@, 0, slots, level) && fits_case(alts, j + 1, slots, level)
    }
}

/// Tells whether every slot that `pat` names lies among `slots` slots, as far down as
/// matching goes.
pub fn slots_fit(pat: &Vec<Atom>, slots: usize) -> (r: bool)
    ensures
        r == fits(pat@, 0, slots as int, 0),
{
    check_fit(pat, slots, 0)
}

fn check_fit(pat: &Vec<Atom>, slots: usize, level: usize) -> (r: bool)
    requires
        level <= MAX_DEPTH,
    ensures
        r == fits(pat@, 0, slots as int, level as nat),
    decreases MAX_DEPTH - level, 0int,
{
    let n: usize = pat.len();
    let mut i: usize = 0;
    while i < n
        invariant
            i <= n,
            n == pat@.len(),
            level <= MAX_DEPTH,
            fits(pat@, 0, slots as int, level as nat) == fits(
                pat@,
                i as int,
                slots as int,
                level as nat,
            ),
        decreases n - i,
    {
        let here = match &pat[i] {
            Atom::Save(slot) => (*slot as usize) < slots,
            Atom::Check(slot, _) => (*slot as usize) < slots,
            Atom::Case(alts) => level >= MAX_DEPTH || check_fit_case(alts, slots, level + 1),
            Atom::Many(group) => level >= MAX_DEPTH || check_fit(group, slots, level + 1),
            _ => true,
        };
        if !here {
            return false;
        }
        i = i + 1;
    }
    true
}

fn check_fit_case(alts: &Vec<Vec<Atom>>, slots: usize, level: usize) -> (r: bool)
    requires
        level <= MAX_DEPTH,
    ensures
        r == fits_case(alts@, 0, slots as int, level as nat),
    decreases MAX_DEPTH - level, 1int,
{
    let n: usize = alts.len();
    let mut j: usize = 0;
    while j < n
        invariant
            j <= n,
            n == alts@.len(),
            level <= MAX_DEPTH,
            fits_case(alts@, 0, slots as int, level as nat) == fits_case(
                alts@,
                j as int,
                slots as int,
                level as nat,
            ),
        decreases n - j,
    {
        if !check_fit(&alts[j], slots, level) {
            return false;
        }
        j = j + 1;
    }
    true
}

/// Whether an anchored cursor stands in code, and every slot marked as stored by an outer
/// `Save` at an anchored cursor holds an address that is code.
pub open spec fn marks_in_code(image: &Image, st: State) -> bool {
    &&& st.anchored ==> image.spec_in_code(st.cursor)
    &&& st.outer.len() == st.save.len()
    &&& forall|k: int|
        0 <= k < st.save.len() && #[trigger] st.outer[k] ==> image.spec_in_code(st.save[k])
}

/// Running instructions keeps every marked slot in code.
pub proof fn lemma_run_keeps_marks(image: &Image, pat: Seq<Atom>, i: int, st: State, level: nat)
    requires
        marks_in_code(image, st),
    ensures
        run(image, pat, i, st, level) matches Some(after) ==> marks_in_code(image, after),
    decreases MAX_DEPTH - level, 0int, pat.len() - i,
{
    if 0 <= i < pat.len() {
        let next = match pat[i] {
            Atom::Case(alts) => if level < MAX_DEPTH {
                run_case(image, alts@, 0, st, level + 1)
            } else {
                None
            },
            Atom::Many(group) => if level < MAX_DEPTH {
                run(image, group@, 0, st, level + 1)
            } else {
                None
            },
            other => step(image, other, st, level),
        };
        match pat[i] {
            Atom::Case(alts) => {
                if level < MAX_DEPTH {
                    lemma_case_keeps_marks(image, alts@, 0, st, level + 1);
                }
            },
            Atom::Many(group) => {
                if level < MAX_DEPTH {
                    lemma_run_keeps_marks(image, group@, 0, st, level + 1);
                }
            },
            _ => {},
        }
        if let Some(after) = next {
            lemma_run_keeps_marks(image, pat, i + 1, after, level);
        }
    }
}

/// Running alternatives keeps every marked slot in code.
pub proof fn lemma_case_keeps_marks(
    image: &Image,
    alts: Seq<Vec<Atom>>,
    j: int,
    st: State,
    level: nat,
)
    requires
        marks_in_code(image, st),
    ensures
        run_case(image, alts, j, st, level) matches Some(after) ==> marks_in_code(image, after),
    decreases MAX_DEPTH - level, 1int, alts.len() - j,
{
    if 0 <= j < alts.len() {
        lemma_run_keeps_marks(image, alts[j]@, 0, st, level);
        if run(image, alts[j]@, 0, st, level) is None {
            lemma_case_keeps_marks(image, alts, j + 1, st, level);
        }
    }
}

/// In the slots of a match, whatever a `Save` outside every alternative and group stored
/// last, with the cursor where the match began or where a `Jump4` or an `Rva4` had led, is
/// an address inside an executable section.
pub proof fn lemma_scanner_locality(image: &Image, pat: Seq<Atom>, start: u32, save: Seq<u32>)
    ensures
        match_at(image, pat, start, save) matches Some(st) ==> forall|k: int|
            0 <= k < st.save.len() && #[trigger] st.outer[k] ==> image.spec_in_code(st.save[k]),
{
    lemma_run_keeps_marks(image, pat, 0, begin(image, start, save), 0);
}

/// Two views that show the same image read the same at every address.
pub proof fn lemma_same_reads(a: &Image, b: &Image, rva: u32)
    requires
        a.same_view(b),
    ensures
        a.spec_in_code(rva) == b.spec_in_code(rva),
        a.spec_load_u8(rva) == b.spec_load_u8(rva),
        a.spec_load_u32(rva) == b.spec_load_u32(rva),
        a.spec_load_u64(rva) == b.spec_load_u64(rva),
        forall|va: u64| a.spec_va_to_rva(va) == b.spec_va_to_rva(va),
{
    assert(a.sections() == b.sections());
    assert(a.spec_find_section(rva as int) == b.spec_find_section(rva as int));
    assert(a.spec_flat_limit() == b.spec_flat_limit());
    assert(a.spec_locate(rva) == b.spec_locate(rva));
    assert(a.spec_slice(rva, 1) == b.spec_slice(rva, 1));
    assert(a.spec_slice(rva, 4) == b.spec_slice(rva, 4));
    assert(a.spec_slice(rva, 8) == b.spec_slice(rva, 8));
}

/// Two views that show the same image take every instruction alike.
pub proof fn lemma_same_step(a: &Image, b: &Image, atom: Atom, st: State, level: nat)
    requires
        a.same_view(b),
    ensures
        step(a, atom, st, level) == step(b, atom, st, level),
{
    lemma_same_reads(a, b, st.cursor);
    match atom {
        Atom::Jump4 => {
            if let Ok(word) = a.spec_load_u32(st.cursor) {
                if let Some(target) = jump_target(st.cursor, word) {
                    lemma_same_reads(a, b, target);
                }
            }
        },
        Atom::Rva4 => {
            if let Ok(target) = a.spec_load_u32(st.cursor) {
                lemma_same_reads(a, b, target);
            }
        },
        _ => {},
    }
}

/// Two views that show the same image run every pattern alike.
pub proof fn lemma_same_run(a: &Image, b: &Image, pat: Seq<Atom>, i: int, st: State, level: nat)
    requires
        a.same_view(b),
    ensures
        run(a, pat, i, st, level) == run(b, pat, i, st, level),
    decreases MAX_DEPTH - level, 0int, pat.len() - i,
{
    if 0 <= i < pat.len() {
        match pat[i] {
            Atom::Case(alts) => {
                if level < MAX_DEPTH {
                    lemma_same_case(a, b, alts@, 0, st, level + 1);
                }
            },
            Atom::Many(group) => {
                if level < MAX_DEPTH {
                    lemma_same_run(a, b, group@, 0, st, level + 1);
                }
            },
            other => {
                lemma_same_step(a, b, other, st, level);
            },
        }
        let next = match pat[i] {
            Atom::Case(alts) => if level < MAX_DEPTH {
                run_case(a, alts@, 0, st, level + 1)
            } else {
                None
            },
            Atom::Many(group) => if level < MAX_DEPTH {
                run(a, group@, 0, st, level + 1)
            } else {
                None
            },
            other => step(a, other, st, level),
        };
        if let Some(after) = next {
            lemma_same_run(a, b, pat, i + 1, after, level);
        }
    }
}

/// Two views that show the same image choose among alternatives alike.
pub proof fn lemma_same_case(
    a: &Image,
    b: &Image,
    alts: Seq<Vec<Atom>>,
    j: int,
    st: State,
    level: nat,
)
    requires
        a.same_view(b),
    ensures
        run_case(a, alts, j, st, level) == run_case(b, alts, j, st, level),
    decreases MAX_DEPTH - level, 1int, alts.len() - j,
{
    if 0 <= j < alts.len() {
        lemma_same_run(a, b, alts[j]@, 0, st, level);
        if run(a, alts[j]@, 0, st, level) is None {
            lemma_same_case(a, b, alts, j + 1, st, level);
        }
    }
}

/// Two views that show the same image have their matches at the same places, with the
/// same slots.
pub proof fn lemma_same_matches(a: &Image, b: &Image, pat: Seq<Atom>, save: Seq<u32>, from: int)
    requires
        a.same_view(b),
    ensures
        first_match(a, pat, save, from) == first_match(b, pat, save, from),
        all_matches(a, pat, save, from) == all_matches(b, pat, save, from),
    decreases 0x1_0000_0000 - from,
{
    if 0 <= from <= u32::MAX {
        lemma_same_reads(a, b, from as u32);
        lemma_same_run(a, b, pat, 0, begin(a, from as u32, save), 0);
        assert(begin(a, from as u32, save) == begin(b, from as u32, save));
        lemma_same_matches(a, b, pat, save, from + 1);
    }
}

/// A scan is a function of the bytes: two well-formed views of one kind over equal bytes
/// give the same first match and the same matches in the same order, each with the same
/// slots.
pub proof fn lemma_scan_purity(a: &Image, b: &Image, pat: Seq<Atom>, save: Seq<u32>, from: int)
    requires
        a.wf(),
        b.wf(),
        a.kind == b.kind,
        a.data@ == b.data@,
    ensures
        first_match(a, pat, save, from) == first_match(b, pat, save, from),
        all_matches(a, pat, save, from) == all_matches(b, pat, save, from),
{
    a.lemma_same_view(b);
    lemma_same_matches(a, b, pat, save, from);
}

} // verus!
