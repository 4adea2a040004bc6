use vstd::prelude::*;
use crate::error::FormatError;
use crate::reader::{ByteReader, varint_at};

verus! {

/// The strings of a STRING section that starts at `i`, `n` of them: each a
/// varint length followed by that many bytes. Gives the strings in order and
/// the position after the last one.
pub open spec fn strings_at(s: Seq<u8>, i: int, n: nat) -> Result<(Seq<Seq<u8>>, int), FormatError>
    decreases n,
{
    if n == 0 {
        Ok((Seq::empty(), i))
    } else {
        match varint_at(s, i) {
            Ok((len, e)) => if e + len > s.len() {
                Err(FormatError::Truncated)
            } else {
                match strings_at(s, e + len, (n - 1) as nat) {
                    Ok((rest, f)) => Ok((seq![s.subrange(e, e + len)] + rest, f)),
                    Err(x) => Err(x),
                }
            },
            Err(x) => Err(x),
        }
    }
}

/// A whole STRING section at `i`: a varint count, then that many strings.
pub open spec fn string_section_at(s: Seq<u8>, i: int) -> Result<(Seq<Seq<u8>>, int), FormatError> {
    match varint_at(s, i) {
        Ok((n, e)) => strings_at(s, e, n),
        Err(x) => Err(x),
    }
}

/// The interned strings of a file. Entry 0 is the reserved empty entry that
/// stands for "no string"; the strings of the file follow from index 1 on.
pub struct StringTable {
    pub entries: Vec<Vec<u8>>,
}

/// The entries of a table built from the strings `ss` of a file.
pub open spec fn table_of(ss: Seq<Seq<u8>>) -> Seq<Seq<u8>> {
    seq![Seq::<u8>::empty()] + ss
}

impl StringTable {
    /// The entries as plain byte sequences.
    pub open spec fn model(&self) -> Seq<Seq<u8>> {
        Seq::new(self.entries@.len(), |k: int| self.entries@[k]@)
    }

    pub open spec fn wf(&self) -> bool {
        self.entries@.len() >= 1 && self.entries@[0]@.len() == 0
    }

    /// A table that holds only the reserved entry.
    pub fn new() -> (r: StringTable)
        ensures
            r.wf(),
            r.model() == table_of(Seq::empty()),
    {
        let mut entries: Vec<Vec<u8>> = Vec::new();
        entries.push(Vec::new());
        let r = StringTable { entries };
        assert(r.model() =~= table_of(Seq::empty()));
        r
    }

    /// The number of strings of the file, the reserved entry not counted.
    pub fn count(&self) -> (r: usize)
        requires
            self.wf(),
        ensures
            r == self.entries@.len() - 1,
    {
        self.entries.len() - 1
    }

    /// Looks up a string index: 0 stands for no string, an index past the
    /// table is an error.
    pub fn resolve(&self, index: usize) -> (r: Result<Option<&Vec<u8>>, FormatError>)
        requires
            self.wf(),
        ensures
            index == 0 ==> r == Ok::<Option<&Vec<u8>>, FormatError>(None),
            0 < index < self.entries@.len() ==> r is Ok && r->Ok_0 is Some && r->Ok_0->Some_0@
                == self.model()[index as int],
            index >= self.entries@.len() ==> r == Err::<Option<&Vec<u8>>, FormatError>(
                FormatError::BadStringIndex,
            ),
    {
        if index == 0 {
            Ok(None)
        } else if index < self.entries.len() {
            Ok(Some(&self.entries[index]))
        } else {
            Err(FormatError::BadStringIndex)
        }
    }

    /// Reads a STRING section and appends its strings, in order, from index 1 on.
    pub fn intern_all(rd: &mut ByteReader) -> (r: Result<StringTable, FormatError>)
        requires
            old(rd).wf(),
        ensures
            final(rd).wf(),
            final(rd).data == old(rd).data,
            final(rd).big_endian == old(rd).big_endian,
            final(rd).pos >= old(rd).pos,
            match string_section_at(old(rd).data@, old(rd).pos as int) {
                Ok((ss, e)) => r is Ok && r->Ok_0.wf() && r->Ok_0.model() == table_of(ss)
                    && final(rd).pos == e,
                Err(x) => r == Err::<StringTable, FormatError>(x),
            },
    {
        let n = match rd.read_varint() {
            Ok(n) => n,
            Err(x) => return Err(x),
        };
        let mut table = StringTable::new();
        let ghost start = rd.pos as int;
        let ghost s = rd.data@;
        let mut k: u32 = 0;
        while k < n
            invariant
                rd.wf(),
                rd.data == old(rd).data,
                s == old(rd).data@,
                rd.big_endian == old(rd).big_endian,
                rd.pos >= old(rd).pos,
                k <= n,
                table.wf(),
                table.entries@.len() == k + 1,
                string_section_at(s, old(rd).pos as int) == strings_at(s, start, n as nat),
                match strings_at(s, start, n as nat) {
                    Ok((ss, e)) => match strings_at(s, rd.pos as int, (n - k) as nat) {
                        Ok((rest, f)) => f == e && ss == table.model().skip(1) + rest,
                        Err(x) => false,
                    },
                    Err(x) => match strings_at(s, rd.pos as int, (n - k) as nat) {
                        Ok(_) => false,
                        Err(y) => y == x,
                    },
                },
            decreases n - k,
        {
            let ghost before = table.model();
            let ghost here = rd.pos as int;
            assert(strings_at(s, here, (n - k) as nat) == match varint_at(s, here) {
                Ok((len, e)) => if e + len > s.len() {
                    Err(FormatError::Truncated)
                } else {
                    match strings_at(s, e + len, (n - k - 1) as nat) {
                        Ok((rest, f)) => Ok((seq![s.subrange(e, e + len)] + rest, f)),
                        Err(x) => Err(x),
                    }
                },
                Err(x) => Err(x),
            });
            let len = match rd.read_varint() {
                Ok(len) => len,
                Err(x) => return Err(x),
            };
            let bytes = match rd.read_bytes(len as usize) {
                Ok(b) => b,
                Err(x) => return Err(x),
            };
            table.entries.push(bytes);
            k = k + 1;
            proof {
                assert(table.model() =~= before.push(bytes@));
                assert(table.model().skip(1) =~= before.skip(1).push(bytes@));
                match strings_at(s, rd.pos as int, (n - k) as nat) {
                    Ok((rest, f)) => {
                        assert(before.skip(1) + (seq![bytes@] + rest) =~= table.model().skip(1) + rest);
                    },
                    Err(_) => {},
                }
            }
        }
        proof {
            assert(table.model().skip(1) + Seq::<Seq<u8>>::empty() =~= table.model().skip(1));
            assert(table.model()[0] =~= Seq::<u8>::empty());
            assert(table_of(table.model().skip(1)) =~= table.model());
        }
        Ok(table)
    }
}

} // verus!
