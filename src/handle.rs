//! The section dispatcher: header check, the header sections in order, then
//! snapshot and cycle sections one at a time. A file starts with 13 header
//! bytes, and each section with a tag byte from 0 to 9.
use vstd::prelude::*;
use std::rc::Rc;
use crate::error::FormatError;
use crate::hierarchy::{Design, HierNode, node_records, records_at};
use crate::reader::{ByteReader, varint_at};
use crate::section::GHWSection;
use crate::signals::{SignalSlot, cycle_at, decode_cycle, decode_snapshot, slots_fit, values_at};
use crate::strings::{StringTable, string_section_at, table_of};
use crate::tree::{Decoded, GHWHierarchy};
use crate::types::{TypeTable, is_scalar_desc};

verus! {

/// The bytes that open every GHW file: "GHDLwave" and a newline.
pub open spec fn magic() -> Seq<u8> {
    seq![71u8, 72, 68, 76, 119, 97, 118, 101, 10]
}

/// The header at `i`: the magic marker, a version of at most 1, a byte
/// order of 1 (little-endian) or 2 (big-endian), a word size of 4 and no
/// compression.
pub open spec fn header_ok(s: Seq<u8>, i: int) -> bool {
    &&& i + 13 <= s.len()
    &&& s.subrange(i, i + 9) == magic()
    &&& s[i + 9] <= 1
    &&& (s[i + 10] == 1 || s[i + 10] == 2)
    &&& s[i + 11] == 4
    &&& s[i + 12] == 0
}

/// Reads and checks the 13-byte header, and takes the byte order it gives.
pub fn read_header(rd: &mut ByteReader) -> (r: Result<(), FormatError>)
    requires
        old(rd).wf(),
    ensures
        final(rd).wf(),
        final(rd).data == old(rd).data,
        old(rd).pos + 13 > old(rd).data@.len() ==> r == Err::<(), FormatError>(FormatError::Truncated),
        old(rd).pos + 13 <= old(rd).data@.len() ==> (r is Ok <==> header_ok(old(rd).data@, old(rd).pos as int)),
        old(rd).pos + 13 <= old(rd).data@.len() && r is Err ==> r == Err::<(), FormatError>(FormatError::HeaderMismatch),
        r is Ok ==> final(rd).pos == old(rd).pos + 13 && final(rd).big_endian == (old(rd).data@[old(rd).pos + 10] == 2),
{
    let h = match rd.read_bytes(13) {
        Ok(h) => h,
        Err(x) => return Err(x),
    };
    let ghost i = old(rd).pos as int;
    proof {
        assert(h@[0] == old(rd).data@[i]);
    }
    let mut ok = h[0] == 71 && h[1] == 72 && h[2] == 68 && h[3] == 76 && h[4] == 119 && h[5] == 97
        && h[6] == 118 && h[7] == 101 && h[8] == 10;
    proof {
        let s = old(rd).data@;
        if ok {
            assert(s.subrange(i, i + 9) =~= magic());
        } else if s.subrange(i, i + 9) == magic() {
            assert(h@.subrange(0, 9) =~= s.subrange(i, i + 9));
            assert(h@[0] == magic()[0] && h@[1] == magic()[1] && h@[2] == magic()[2]);
            assert(h@[3] == magic()[3] && h@[4] == magic()[4] && h@[5] == magic()[5]);
            assert(h@[6] == magic()[6] && h@[7] == magic()[7] && h@[8] == magic()[8]);
        }
    }
    ok = ok && h[9] <= 1 && (h[10] == 1 || h[10] == 2) && h[11] == 4 && h[12] == 0;
    if !ok {
        return Err(FormatError::HeaderMismatch);
    }
    rd.big_endian = h[10] == 2;
    Ok(())
}

/// The position after `n` directory entries at `i`: each a section tag and
/// a 32-bit offset.
pub open spec fn dir_entries_at(s: Seq<u8>, i: int, n: nat) -> Result<int, FormatError>
    decreases n,
{
    if n == 0 {
        Ok(i)
    } else if i < 0 || i >= s.len() {
        Err(FormatError::Truncated)
    } else if crate::section::section_of(s[i] as int) is None {
        Err(FormatError::UnknownSection)
    } else if i + 5 > s.len() {
        Err(FormatError::Truncated)
    } else {
        dir_entries_at(s, i + 5, (n - 1) as nat)
    }
}

/// The position after a DIRECTORY section at `i`: a varint count, then the
/// entries.
pub open spec fn directory_at(s: Seq<u8>, i: int) -> Result<int, FormatError> {
    match varint_at(s, i) {
        Ok((n, e)) => dir_entries_at(s, e, n),
        Err(x) => Err(x),
    }
}

/// Reads a DIRECTORY section, which this decoder checks and passes over: a
/// varint count, then a section tag and a 32-bit offset for each entry.
pub fn skip_directory(rd: &mut ByteReader) -> (r: Result<(), FormatError>)
    requires
        old(rd).wf(),
    ensures
        final(rd).wf(),
        final(rd).data == old(rd).data,
        final(rd).big_endian == old(rd).big_endian,
        final(rd).pos >= old(rd).pos,
        match directory_at(old(rd).data@, old(rd).pos as int) {
            Ok(e) => r is Ok && final(rd).pos == e,
            Err(x) => r == Err::<(), FormatError>(x),
        },
{
    let count = match rd.read_varint() {
        Ok(c) => c,
        Err(x) => return Err(x),
    };
    let mut k: u32 = 0;
    while k < count
        invariant
            rd.wf(),
            rd.data == old(rd).data,
            rd.big_endian == old(rd).big_endian,
            rd.pos >= old(rd).pos,
            k <= count,
            directory_at(old(rd).data@, old(rd).pos as int) == dir_entries_at(
                rd.data@,
                rd.pos as int,
                (count - k) as nat,
            ),
        decreases count - k,
    {
        let tag = match rd.read_u8() {
            Ok(b) => b,
            Err(x) => return Err(x),
        };
        match GHWSection::from_i32(tag as i32) {
            Ok(_) => {},
            Err(x) => return Err(x),
        }
        match rd.read_fixed(4) {
            Ok(_) => {},
            Err(x) => return Err(x),
        }
        k = k + 1;
    }
    Ok(())
}

/// What reading the section at the handle's position does, by its tag:
/// null and tailer sections are just passed; a directory is checked and
/// skipped; the snapshot, once, gives every slot its value with its last
/// change at 0; a cycle, after the snapshot, updates the named slots and the
/// time; any other tag is out of order here.
pub open spec fn section_effect(h: GHWHandle, f: GHWHandle, r: Result<Option<GHWSection>, FormatError>) -> bool {
    let s = h.reader.data@;
    let i = h.reader.pos as int;
    let be = h.reader.big_endian;
    match crate::section::section_of(s[i] as int) {
        None => r == Err::<Option<GHWSection>, FormatError>(FormatError::UnknownSection),
        Some(sec) => match sec {
            GHWSection::Null | GHWSection::Tailer => r == Ok::<Option<GHWSection>, FormatError>(Some(sec))
                && f.reader.pos == i + 1 && f.slots == h.slots && f.time == h.time,
            GHWSection::Directory => match directory_at(s, i + 1) {
                Ok(e) => r == Ok::<Option<GHWSection>, FormatError>(Some(sec)) && f.reader.pos == e
                    && f.slots == h.slots && f.time == h.time,
                Err(x) => r == Err::<Option<GHWSection>, FormatError>(x),
            },
            GHWSection::Snapshot => if h.snapshot_read || h.tree is None {
                r == Err::<Option<GHWSection>, FormatError>(FormatError::OutOfOrderSection)
            } else {
                let t = h.tree->Some_0;
                match values_at(s, i + 1, be, t.types, t.design.slot_types@) {
                    Ok((vs, e)) => r == Ok::<Option<GHWSection>, FormatError>(Some(sec)) && f.reader.pos == e
                        && f.time == h.time && f.slots@.len() == vs.len() && forall|k: int|
                        0 <= k < vs.len() ==> (#[trigger] f.slots@[k]).value == vs[k] && f.slots@[k].last_change == 0,
                    Err(x) => r == Err::<Option<GHWSection>, FormatError>(x),
                }
            },
            GHWSection::Cycle => if !h.snapshot_read || h.tree is None {
                r == Err::<Option<GHWSection>, FormatError>(FormatError::OutOfOrderSection)
            } else {
                match cycle_at(s, i + 1, be, h.tree->Some_0.types, h.slots@, h.time) {
                    Ok((ns, t, e)) => r == Ok::<Option<GHWSection>, FormatError>(Some(sec)) && f.slots@ == ns
                        && f.time == t && f.reader.pos == e,
                    Err(x) => r == Err::<Option<GHWSection>, FormatError>(x),
                }
            },
            _ => r == Err::<Option<GHWSection>, FormatError>(FormatError::OutOfOrderSection),
        },
    }
}

/// A STRING section starts at `sp` (just after its tag) and decodes to the
/// table `model`.
pub open spec fn string_section_read_at(s: Seq<u8>, sp: int, model: Seq<Seq<u8>>) -> bool {
    &&& 0 < sp <= s.len()
    &&& s[sp - 1] == 1
    &&& string_section_at(s, sp) is Ok
    &&& model == table_of(string_section_at(s, sp)->Ok_0.0)
}

/// A TYPE section starts at `tp` (just after its tag) and counts `n` records.
pub open spec fn type_section_read_at(s: Seq<u8>, tp: int, n: nat) -> bool {
    &&& 0 < tp <= s.len()
    &&& s[tp - 1] == 3
    &&& varint_at(s, tp) is Ok
    &&& n == varint_at(s, tp)->Ok_0.0
}

/// A HIERARCHY section starts at `hp` (just after its tag) and decodes,
/// against types `t` and `nstr` strings, to the records of `nodes` below the
/// root.
pub open spec fn hierarchy_read_at(s: Seq<u8>, hp: int, t: TypeTable, nstr: int, nodes: Seq<HierNode>) -> bool {
    &&& 0 < hp <= s.len()
    &&& s[hp - 1] == 2
    &&& records_at(s, hp, t, nstr, seq![0usize], 1) is Ok
    &&& records_at(s, hp, t, nstr, seq![0usize], 1)->Ok_0.0 == node_records(nodes, 1, nodes.len() as int)
}

/// The design `nodes` is the one decoded from a HIERARCHY section of `s`.
pub open spec fn hierarchy_from_file(s: Seq<u8>, t: TypeTable, nstr: int, nodes: Seq<HierNode>) -> bool {
    exists|hp: int| #[trigger] hierarchy_read_at(s, hp, t, nstr, nodes)
}

/// The string table `model` is the one decoded from a STRING section of `s`.
pub open spec fn strings_from_file(s: Seq<u8>, model: Seq<Seq<u8>>) -> bool {
    exists|sp: int| #[trigger] string_section_read_at(s, sp, model)
}

/// `n` types is the count of a TYPE section of `s`.
pub open spec fn types_from_file(s: Seq<u8>, n: nat) -> bool {
    exists|tp: int| #[trigger] type_section_read_at(s, tp, n)
}

/// A file being decoded: the byte stream, the tables and tree once the
/// header sections are read, the signal slots once the snapshot is, and the
/// simulation time reached by the cycles so far.
pub struct GHWHandle {
    pub reader: ByteReader,
    pub tree: Option<Rc<Decoded>>,
    pub slots: Vec<SignalSlot>,
    pub snapshot_read: bool,
    pub time: i64,
    pub verbose: bool,
    pub full_names: bool,
}

impl GHWHandle {
    /// The tree and the slots agree with each other.
    pub open spec fn wf(&self) -> bool {
        &&& self.reader.wf()
        &&& self.time >= 0
        &&& match self.tree {
            Some(t) => t.wf() && (self.snapshot_read ==> slots_fit(
                self.slots@,
                t.design.slot_types@,
                &t.types,
            )),
            None => !self.snapshot_read,
        }
    }

    /// A handle over no data.
    pub fn new() -> (r: GHWHandle)
        ensures
            r.wf(),
            r.reader.data@.len() == 0,
            r.tree is None,
            r.time == 0,
    {
        GHWHandle::from_bytes(Vec::new())
    }

    /// A handle over the bytes of a file, nothing read yet.
    pub fn from_bytes(data: Vec<u8>) -> (r: GHWHandle)
        ensures
            r.wf(),
            r.reader.data@ == data@,
            r.reader.pos == 0,
            r.tree is None,
            !r.snapshot_read,
            r.time == 0,
    {
        GHWHandle {
            reader: ByteReader::new(data),
            tree: None,
            slots: Vec::new(),
            snapshot_read: false,
            time: 0,
            verbose: false,
            full_names: false,
        }
    }

    pub fn set_verbose(&mut self, verbose: bool)
        ensures
            final(self).verbose == verbose,
            final(self).full_names == old(self).full_names,
            final(self).reader == old(self).reader,
            final(self).tree == old(self).tree,
            final(self).slots == old(self).slots,
            final(self).snapshot_read == old(self).snapshot_read,
            final(self).time == old(self).time,
    {
        self.verbose = verbose;
    }

    pub fn set_full_names(&mut self, full_names: bool)
        ensures
            final(self).full_names == full_names,
            final(self).verbose == old(self).verbose,
            final(self).reader == old(self).reader,
            final(self).tree == old(self).tree,
            final(self).slots == old(self).slots,
            final(self).snapshot_read == old(self).snapshot_read,
            final(self).time == old(self).time,
    {
        self.full_names = full_names;
    }

    /// Releases the decoded data; the handle is then as if new.
    pub fn close(&mut self)
        ensures
            final(self).wf(),
            final(self).reader.data@.len() == 0,
            final(self).tree is None,
            final(self).slots@.len() == 0,
            final(self).time == 0,
    {
        self.reader = ByteReader::new(Vec::new());
        self.tree = None;
        self.slots = Vec::new();
        self.snapshot_read = false;
        self.time = 0;
    }

    /// The number of signal slots: the scalar signals that the leaf
    /// declarations flatten to.
    pub fn number_of_signals(&self) -> (r: usize)
        ensures
            match self.tree {
                Some(t) => r == t.design.slot_types@.len(),
                None => r == 0,
            },
    {
        match &self.tree {
            Some(t) => t.design.slot_types.len(),
            None => 0,
        }
    }

    /// The number of strings of the STRING section.
    pub fn number_of_strings(&self) -> (r: usize)
        requires
            self.wf(),
        ensures
            match self.tree {
                Some(t) => r == t.strings.entries@.len() - 1,
                None => r == 0,
            },
    {
        match &self.tree {
            Some(t) => t.strings.count(),
            None => 0,
        }
    }

    /// The number of types of the TYPE section.
    pub fn number_of_types(&self) -> (r: usize)
        ensures
            match self.tree {
                Some(t) => r == t.types.entries@.len(),
                None => r == 0,
            },
    {
        match &self.tree {
            Some(t) => t.types.count(),
            None => 0,
        }
    }

    /// The simulation time reached so far.
    pub fn next_time(&self) -> (r: i64)
        ensures
            r == self.time,
    {
        self.time
    }

    /// Checks the header, then reads the STRING, TYPE, WKT and HIERARCHY
    /// sections, in that order, up to the end-of-header tag. Directory and
    /// null sections may stand between them. On success the tables and the
    /// tree are in place and the time is 0.
    pub fn read_base(&mut self) -> (r: Result<(), FormatError>)
        requires
            old(self).wf(),
        ensures
            final(self).wf(),
            r is Ok ==> final(self).tree is Some && !final(self).snapshot_read && final(self).time == 0,
            r is Err ==> final(self).tree == old(self).tree && final(self).snapshot_read == old(self).snapshot_read,
            final(self).time == old(self).time || r is Ok,
            old(self).tree is Some ==> r == Err::<(), FormatError>(FormatError::OutOfOrderSection),
            old(self).tree is None && old(self).reader.pos + 13 > old(self).reader.data@.len() ==> r == Err::<
                (),
                FormatError,
            >(FormatError::Truncated),
            old(self).tree is None && old(self).reader.pos + 13 <= old(self).reader.data@.len() && !header_ok(
                old(self).reader.data@,
                old(self).reader.pos as int,
            ) ==> r == Err::<(), FormatError>(FormatError::HeaderMismatch),
            r is Ok ==> header_ok(old(self).reader.data@, old(self).reader.pos as int),
            r is Ok ==> strings_from_file(old(self).reader.data@, final(self).tree->Some_0.strings.model()),
            r is Ok ==> types_from_file(old(self).reader.data@, final(self).tree->Some_0.types.entries@.len()),
            r is Ok ==> hierarchy_from_file(
                old(self).reader.data@,
                final(self).tree->Some_0.types,
                final(self).tree->Some_0.strings.entries@.len() as int,
                final(self).tree->Some_0.design.nodes@,
            ),
    {
        if self.tree.is_some() {
            return Err(FormatError::OutOfOrderSection);
        }
        let ghost s = self.reader.data@;
        let ghost mut sp: int = 0;
        let ghost mut tp: int = 0;
        let ghost mut hp: int = 0;
        match read_header(&mut self.reader) {
            Ok(()) => {},
            Err(x) => return Err(x),
        }
        let mut strings = StringTable::new();
        let mut have_strings = false;
        let mut types = TypeTable::new();
        let mut have_types = false;
        let mut design: Option<Design> = None;
        loop
            invariant
                self.wf(),
                self.tree is None,
                self.tree == old(self).tree,
                self.snapshot_read == old(self).snapshot_read,
                self.time == old(self).time,
                strings.wf(),
                types.wf(strings.entries@.len() as int),
                !have_strings ==> !have_types,
                !have_types ==> types.entries@.len() == 0 && design is None,
                s == self.reader.data@,
                s == old(self).reader.data@,
                header_ok(s, old(self).reader.pos as int),
                have_strings ==> string_section_read_at(s, sp, strings.model()),
                have_types ==> type_section_read_at(s, tp, types.entries@.len()),
                match design {
                    Some(d) => hierarchy_read_at(s, hp, types, strings.entries@.len() as int, d.nodes@),
                    None => true,
                },
                match design {
                    Some(d) => d.wf(&types, strings.entries@.len() as int) && d.nodes@[0].name == 0,
                    None => true,
                },
            decreases self.reader.data@.len() - self.reader.pos,
        {
            let tag = match self.reader.read_u8() {
                Ok(b) => b,
                Err(x) => return Err(x),
            };
            let section = match GHWSection::from_i32(tag as i32) {
                Ok(s) => s,
                Err(x) => return Err(x),
            };
            match section {
                GHWSection::Null => {},
                GHWSection::String => {
                    if have_strings {
                        return Err(FormatError::OutOfOrderSection);
                    }
                    proof {
                        sp = self.reader.pos as int;
                    }
                    strings = match StringTable::intern_all(&mut self.reader) {
                        Ok(t) => t,
                        Err(x) => return Err(x),
                    };
                    have_strings = true;
                },
                GHWSection::Type => {
                    if !have_strings || have_types {
                        return Err(FormatError::OutOfOrderSection);
                    }
                    proof {
                        tp = self.reader.pos as int;
                    }
                    types = match TypeTable::decode_types(&mut self.reader, strings.entries.len()) {
                        Ok(t) => t,
                        Err(x) => return Err(x),
                    };
                    have_types = true;
                },
                GHWSection::WellKnownType => {
                    if !have_types || design.is_some() {
                        return Err(FormatError::OutOfOrderSection);
                    }
                    let ghost before = types;
                    match types.apply_wkt(&mut self.reader) {
                        Ok(()) => {},
                        Err(x) => return Err(x),
                    }
                    proof {
                        let nstr = strings.entries@.len() as int;
                        assert forall|i: int| 0 <= i < types.entries@.len() implies #[trigger] types.entry_ok(i, nstr) by {
                            assert(before.entry_ok(i, nstr));
                            assert(types.scalars_of(i) == before.scalars_of(i));
                            match types.scalars_of(i) {
                                Some(v) => {
                                    assert forall|j: int| 0 <= j < v.len() implies #[trigger] v[j] <= i && is_scalar_desc(
                                        types.entries@[v[j] as int].desc,
                                    ) by {
                                        assert(types.entries@[v[j] as int].desc == before.entries@[v[j] as int].desc);
                                    }
                                },
                                None => {},
                            }
                        }
                    }
                },
                GHWSection::Hierarchy => {
                    if !have_types || design.is_some() {
                        return Err(FormatError::OutOfOrderSection);
                    }
                    proof {
                        hp = self.reader.pos as int;
                    }
                    let d = match Design::decode_hierarchy(&mut self.reader, &types, strings.entries.len()) {
                        Ok(d) => d,
                        Err(x) => return Err(x),
                    };
                    design = Some(d);
                },
                GHWSection::Directory => {
                    match skip_directory(&mut self.reader) {
                        Ok(()) => {},
                        Err(x) => return Err(x),
                    }
                },
                GHWSection::EOH => {
                    match design {
                        Some(d) => {
                            assert(string_section_read_at(s, sp, strings.model()));
                            assert(type_section_read_at(s, tp, types.entries@.len()));
                            assert(hierarchy_read_at(s, hp, types, strings.entries@.len() as int, d.nodes@));
                            let decoded = Decoded { strings, types, design: d };
                            self.tree = Some(Rc::new(decoded));
                            self.slots = Vec::new();
                            self.snapshot_read = false;
                            self.time = 0;
                            return Ok(());
                        },
                        None => return Err(FormatError::OutOfOrderSection),
                    }
                },
                _ => return Err(FormatError::OutOfOrderSection),
            }
        }
    }

    /// Reads the next section after the header ones: the snapshot, a cycle,
    /// a directory, a null section or the tailer, and says which it was;
    /// `None` at the end of the stream. A cycle before the snapshot, a
    /// second snapshot or a header section here is out of order.
    pub fn read_section(&mut self) -> (r: Result<Option<GHWSection>, FormatError>)
        requires
            old(self).wf(),
        ensures
            final(self).wf(),
            final(self).tree == old(self).tree,
            final(self).time >= old(self).time,
            r == Ok::<Option<GHWSection>, FormatError>(Some(GHWSection::Snapshot)) ==> final(self).snapshot_read,
            old(self).reader.pos >= old(self).reader.data@.len() <==> r == Ok::<Option<GHWSection>, FormatError>(None),
            old(self).reader.pos < old(self).reader.data@.len() ==> {
                let tag = old(self).reader.data@[old(self).reader.pos as int] as int;
                &&& crate::section::section_of(tag) is None ==> r == Err::<Option<GHWSection>, FormatError>(
                    FormatError::UnknownSection,
                )
                &&& r is Ok ==> r->Ok_0 == crate::section::section_of(tag)
            },
            r == Ok::<Option<GHWSection>, FormatError>(Some(GHWSection::Cycle)) ==> final(self).slots@.len()
                == old(self).slots@.len(),
            old(self).reader.pos < old(self).reader.data@.len() ==> section_effect(*old(self), *final(self), r),
    {
        if self.reader.at_end() {
            return Ok(None);
        }
        let tag = match self.reader.read_u8() {
            Ok(b) => b,
            Err(x) => return Err(x),
        };
        let section = match GHWSection::from_i32(tag as i32) {
            Ok(s) => s,
            Err(x) => return Err(x),
        };
        match section {
            GHWSection::Null | GHWSection::Tailer => Ok(Some(section)),
            GHWSection::Directory => {
                match skip_directory(&mut self.reader) {
                    Ok(()) => Ok(Some(section)),
                    Err(x) => Err(x),
                }
            },
            GHWSection::Snapshot => {
                if self.snapshot_read {
                    return Err(FormatError::OutOfOrderSection);
                }
                match &self.tree {
                    Some(t) => {
                        let slots = match decode_snapshot(&mut self.reader, &t.types, &t.design.slot_types) {
                            Ok(v) => v,
                            Err(x) => return Err(x),
                        };
                        self.slots = slots;
                        self.snapshot_read = true;
                        Ok(Some(section))
                    },
                    None => Err(FormatError::OutOfOrderSection),
                }
            },
            GHWSection::Cycle => {
                if !self.snapshot_read {
                    return Err(FormatError::OutOfOrderSection);
                }
                match &self.tree {
                    Some(t) => {
                        proof {
                            assert forall|k: int| 0 <= k < self.slots@.len() implies (#[trigger] self.slots@[k]).type_id
                                < t.types.entries@.len() && is_scalar_desc(t.types.entries@[self.slots@[k].type_id as int].desc)
                                && crate::signals::value_fits(t.types.entries@[self.slots@[k].type_id as int].desc, self.slots@[k].value) by {
                                assert(t.design.slot_types_ok(&t.types));
                                assert(self.slots@[k].type_id == t.design.slot_types@[k]);
                            }
                        }
                        let ghost before = self.slots@;
                        let now = match decode_cycle(&mut self.reader, &t.types, &mut self.slots, self.time) {
                            Ok(now) => now,
                            Err(x) => {
                                proof {
                                    assert forall|k: int| 0 <= k < self.slots@.len() implies (#[trigger] self.slots@[k]).type_id
                                        == t.design.slot_types@[k] by {
                                        assert(self.slots@[k].type_id == before[k].type_id);
                                    }
                                }
                                return Err(x);
                            },
                        };
                        proof {
                            assert forall|k: int| 0 <= k < self.slots@.len() implies (#[trigger] self.slots@[k]).type_id
                                == t.design.slot_types@[k] by {
                                assert(self.slots@[k].type_id == before[k].type_id);
                            }
                        }
                        self.time = now;
                        Ok(Some(section))
                    },
                    None => Err(FormatError::OutOfOrderSection),
                }
            },
            _ => Err(FormatError::OutOfOrderSection),
        }
    }

    /// The root of the design tree, once the header sections are read.
    pub fn hierarchy(&self) -> (r: Option<GHWHierarchy>)
        requires
            self.wf(),
        ensures
            match self.tree {
                Some(t) => r is Some && r->Some_0.tree == t && r->Some_0.index == 0 && r->Some_0.wf(),
                None => r is None,
            },
    {
        match &self.tree {
            Some(t) => {
                proof {
                    reveal(crate::hierarchy::links_ok);
                }
                Some(GHWHierarchy { tree: Rc::clone(t), index: 0 })
            },
            None => None,
        }
    }
}

} // verus!
