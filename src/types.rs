//! The type table. A TYPE section is a varint count of records; each record
//! is a kind byte, a name (a varint string index), then by kind:
//! enumerations a literal count and literal names; integer and float types
//! nothing more; physical types a unit count and, per unit, a name and a
//! 64-bit value; arrays an element type, a dimension count and the index
//! types; records a field count and, per field, a name and a type; scalar
//! subtypes a base, a direction byte and two 64-bit bounds; array subtypes a
//! base and one varint length per dimension of the base; the other subtypes
//! a base alone. Type references are varint positions of earlier records.
use vstd::prelude::*;
use crate::error::FormatError;
use crate::reader::{ByteReader, varint_at};
use crate::rtik::{GHDLRTIK, rtik_of};

verus! {

/// The largest number of scalar signals that one type may flatten to: the
/// slot indices of a cycle are 32-bit numbers.
pub const MAX_SCALARS: usize = 4_294_967_295;

/// Types that consumers may format by a fast path.
#[derive(Debug, Clone, Copy, PartialEq, Eq, Structural)]
pub enum GHWWellKnownType {
    Unknown,
    Boolean,
    Bit,
    StdULogic,
}

/// The well-known type that a code names: 0 to 3, in declaration order.
pub open spec fn wkt_of(value: int) -> Option<GHWWellKnownType> {
    if value == 0 {
        Some(GHWWellKnownType::Unknown)
    } else if value == 1 {
        Some(GHWWellKnownType::Boolean)
    } else if value == 2 {
        Some(GHWWellKnownType::Bit)
    } else if value == 3 {
        Some(GHWWellKnownType::StdULogic)
    } else {
        None
    }
}

impl GHWWellKnownType {
    /// Decodes a well-known-type code; any other value is a malformed type.
    pub fn from_i32(value: i32) -> (r: Result<GHWWellKnownType, FormatError>)
        ensures
            match wkt_of(value as int) {
                Some(w) => r == Ok::<GHWWellKnownType, FormatError>(w),
                None => r == Err::<GHWWellKnownType, FormatError>(FormatError::MalformedType),
            },
    {
        match value {
            0 => Ok(GHWWellKnownType::Unknown),
            1 => Ok(GHWWellKnownType::Boolean),
            2 => Ok(GHWWellKnownType::Bit),
            3 => Ok(GHWWellKnownType::StdULogic),
            _ => Err(FormatError::MalformedType),
        }
    }
}

/// A unit of a physical type: its name and its value in the base unit.
pub struct Unit {
    pub name: usize,
    pub value: i64,
}

/// A field of a record type: its name and its type.
pub struct Field {
    pub name: usize,
    pub type_id: usize,
}

/// What a subtype narrows of its base.
pub enum Constraint {
    /// A scalar range, bounds kept as their stored 64-bit patterns.
    Range { downto: bool, left: u64, right: u64 },
    /// One length per dimension of an array base.
    Lengths(Vec<u32>),
    /// Nothing: the subtype leaves its bounds open.
    Unbounded,
    /// The record subtype keeps the fields of its base.
    Fields,
}

/// One decoded type. Names are string indices; types are referred to by
/// their position in the table.
pub enum GHWType {
    /// A type known only by its kind and name (access and file types).
    Common { kind: GHDLRTIK, name: usize },
    /// An enumeration, with its literals in declaration order.
    Enum { kind: GHDLRTIK, name: usize, literals: Vec<usize> },
    /// An integer or floating type.
    Scalar { kind: GHDLRTIK, name: usize },
    /// A physical type with its units.
    Physical { kind: GHDLRTIK, name: usize, units: Vec<Unit> },
    /// An array type over its element type and index types.
    Array { name: usize, element: usize, dims: Vec<usize> },
    /// A record type with its fields in order.
    Record { name: usize, fields: Vec<Field> },
    /// A subtype of `base`.
    Subtype { kind: GHDLRTIK, name: usize, base: usize, constraint: Constraint },
}

/// A type and the scalar types it flattens to, one per signal slot; `None`
/// for a type whose size the file leaves open.
pub struct TypeEntry {
    pub desc: GHWType,
    pub scalars: Option<Vec<usize>>,
    pub wkt: GHWWellKnownType,
}

/// True of the types that take one signal slot each.
pub open spec fn is_scalar_desc(d: GHWType) -> bool {
    d is Enum || d is Scalar || d is Physical
}

/// The string index that names a type.
pub open spec fn desc_name(d: GHWType) -> usize {
    match d {
        GHWType::Common { name, .. } => name,
        GHWType::Enum { name, .. } => name,
        GHWType::Scalar { name, .. } => name,
        GHWType::Physical { name, .. } => name,
        GHWType::Array { name, .. } => name,
        GHWType::Record { name, .. } => name,
        GHWType::Subtype { name, .. } => name,
    }
}

/// The kind of run-time type information that a type was decoded from.
pub open spec fn desc_kind(d: GHWType) -> GHDLRTIK {
    match d {
        GHWType::Common { kind, .. } => kind,
        GHWType::Enum { kind, .. } => kind,
        GHWType::Scalar { kind, .. } => kind,
        GHWType::Physical { kind, .. } => kind,
        GHWType::Array { .. } => GHDLRTIK::TypeArray,
        GHWType::Record { .. } => GHDLRTIK::TypeRecord,
        GHWType::Subtype { kind, .. } => kind,
    }
}

impl GHWType {
    /// The kind of run-time type information of this type.
    pub fn kind(&self) -> (r: GHDLRTIK)
        ensures
            r == desc_kind(*self),
    {
        match self {
            GHWType::Common { kind, .. } => *kind,
            GHWType::Enum { kind, .. } => *kind,
            GHWType::Scalar { kind, .. } => *kind,
            GHWType::Physical { kind, .. } => *kind,
            GHWType::Array { .. } => GHDLRTIK::TypeArray,
            GHWType::Record { .. } => GHDLRTIK::TypeRecord,
            GHWType::Subtype { kind, .. } => *kind,
        }
    }

    /// The string index of this type's name.
    pub fn name_index(&self) -> (r: usize)
        ensures
            r == desc_name(*self),
    {
        match self {
            GHWType::Common { name, .. } => *name,
            GHWType::Enum { name, .. } => *name,
            GHWType::Scalar { name, .. } => *name,
            GHWType::Physical { name, .. } => *name,
            GHWType::Array { name, .. } => *name,
            GHWType::Record { name, .. } => *name,
            GHWType::Subtype { name, .. } => *name,
        }
    }
}

/// Every string index that a type holds is below `nstr`, and every type it
/// refers to comes before position `id`.
pub open spec fn desc_refs_ok(d: GHWType, id: int, nstr: int) -> bool {
    &&& desc_name(d) < nstr
    &&& match d {
        GHWType::Enum { literals, .. } => forall|j: int|
            0 <= j < literals@.len() ==> #[trigger] literals@[j] < nstr,
        GHWType::Physical { units, .. } => forall|j: int|
            0 <= j < units@.len() ==> #[trigger] units@[j].name < nstr,
        GHWType::Array { element, dims, .. } => element < id && forall|j: int|
            0 <= j < dims@.len() ==> #[trigger] dims@[j] < id,
        GHWType::Record { fields, .. } => forall|j: int|
            0 <= j < fields@.len() ==> #[trigger] fields@[j].name < nstr && fields@[j].type_id
                < id,
        GHWType::Subtype { base, .. } => base < id,
        _ => true,
    }
}

pub struct TypeTable {
    pub entries: Vec<TypeEntry>,
}

impl TypeTable {
    /// The scalar ids that entry `i` flattens to, as a sequence.
    pub open spec fn scalars_of(&self, i: int) -> Option<Seq<usize>> {
        match self.entries@[i].scalars {
            Some(v) => Some(v@),
            None => None,
        }
    }

    /// Entry `i` names only earlier types and strings below `nstr`, and
    /// flattens to scalar types at or before itself.
    pub open spec fn entry_ok(&self, i: int, nstr: int) -> bool {
        &&& desc_refs_ok(self.entries@[i].desc, i, nstr)
        &&& match self.scalars_of(i) {
            Some(v) => v.len() <= MAX_SCALARS && forall|j: int|
                0 <= j < v.len() ==> #[trigger] v[j] <= i && is_scalar_desc(
                    self.entries@[v[j] as int].desc,
                ),
            None => true,
        }
        &&& is_scalar_desc(self.entries@[i].desc) ==> self.scalars_of(i) == Some(seq![i as usize])
    }

    /// The table refers backward only, to strings below `nstr`.
    pub open spec fn wf(&self, nstr: int) -> bool {
        forall|i: int| 0 <= i < self.entries@.len() ==> #[trigger] self.entry_ok(i, nstr)
    }

    /// The number of types.
    pub fn count(&self) -> (r: usize)
        ensures
            r == self.entries@.len(),
    {
        self.entries.len()
    }
}

/// Entry `e`, put at position `n` after the entries of `t`, names only
/// earlier types and strings below `nstr`, and flattens to scalar types at or
/// before itself.
pub open spec fn fits_after(t: &TypeTable, e: &TypeEntry, nstr: int) -> bool {
    let n = t.entries@.len() as int;
    &&& desc_refs_ok(e.desc, n, nstr)
    &&& match e.scalars {
        Some(v) => v@.len() <= MAX_SCALARS && forall|j: int|
            0 <= j < v@.len() ==> (#[trigger] v@[j] < n && is_scalar_desc(
                t.entries@[v@[j] as int].desc,
            )) || (v@[j] == n && is_scalar_desc(e.desc)),
        None => true,
    }
    &&& is_scalar_desc(e.desc) ==> e.scalars is Some && e.scalars->Some_0@ == seq![n as usize]
}

/// Reads a string index, which must be below `nstr`.
pub fn read_name(rd: &mut ByteReader, nstr: usize) -> (r: Result<usize, FormatError>)
    requires
        old(rd).wf(),
    ensures
        final(rd).wf(),
        final(rd).data == old(rd).data,
        final(rd).big_endian == old(rd).big_endian,
        final(rd).pos >= old(rd).pos,
        r is Ok ==> r->Ok_0 < nstr,
        match varint_at(old(rd).data@, old(rd).pos as int) {
            Ok((v, e)) => if v < nstr {
                r == Ok::<usize, FormatError>(v as usize) && final(rd).pos == e
            } else {
                r == Err::<usize, FormatError>(FormatError::BadStringIndex)
            },
            Err(x) => r == Err::<usize, FormatError>(x),
        },
{
    let v = match rd.read_varint() {
        Ok(v) => v,
        Err(x) => return Err(x),
    };
    if (v as usize) < nstr {
        Ok(v as usize)
    } else {
        Err(FormatError::BadStringIndex)
    }
}

/// Reads a type reference, which must name one of the `n` types decoded so far.
pub fn read_type_ref(rd: &mut ByteReader, n: usize) -> (r: Result<usize, FormatError>)
    requires
        old(rd).wf(),
    ensures
        final(rd).wf(),
        final(rd).data == old(rd).data,
        final(rd).big_endian == old(rd).big_endian,
        final(rd).pos >= old(rd).pos,
        r is Ok ==> r->Ok_0 < n,
        match varint_at(old(rd).data@, old(rd).pos as int) {
            Ok((v, e)) => if v < n {
                r == Ok::<usize, FormatError>(v as usize) && final(rd).pos == e
            } else {
                r == Err::<usize, FormatError>(FormatError::ForwardTypeReference)
            },
            Err(x) => r == Err::<usize, FormatError>(x),
        },
{
    let v = match rd.read_varint() {
        Ok(v) => v,
        Err(x) => return Err(x),
    };
    if (v as usize) < n {
        Ok(v as usize)
    } else {
        Err(FormatError::ForwardTypeReference)
    }
}

/// Appends the ids of `v` to `out`.
pub fn append_ids(out: &mut Vec<usize>, v: &Vec<usize>)
    ensures
        final(out)@ == old(out)@ + v@,
{
    let mut j: usize = 0;
    while j < v.len()
        invariant
            j <= v@.len(),
            out@ == old(out)@ + v@.subrange(0, j as int),
        decreases v@.len() - j,
    {
        out.push(v[j]);
        j = j + 1;
        assert(out@ =~= old(out)@ + v@.subrange(0, j as int));
    }
    assert(v@.subrange(0, v@.len() as int) =~= v@);
}

/// Reads `count` string indices below `nstr`.
fn read_names(rd: &mut ByteReader, count: u32, nstr: usize) -> (r: Result<Vec<usize>, FormatError>)
    requires
        old(rd).wf(),
    ensures
        final(rd).wf(),
        final(rd).data == old(rd).data,
        final(rd).big_endian == old(rd).big_endian,
        final(rd).pos >= old(rd).pos,
        r is Ok ==> r->Ok_0@.len() == count && forall|j: int|
            0 <= j < count ==> #[trigger] r->Ok_0@[j] < nstr,
{
    let mut out: Vec<usize> = Vec::new();
    let mut k: u32 = 0;
    while k < count
        invariant
            rd.wf(),
            rd.data == old(rd).data,
            rd.big_endian == old(rd).big_endian,
            rd.pos >= old(rd).pos,
            k <= count,
            out@.len() == k,
            forall|j: int| 0 <= j < k ==> #[trigger] out@[j] < nstr,
        decreases count - k,
    {
        let v = match read_name(rd, nstr) {
            Ok(v) => v,
            Err(x) => return Err(x),
        };
        out.push(v);
        k = k + 1;
    }
    Ok(out)
}

/// Reads `count` type references to the `n` types decoded so far.
fn read_type_refs(rd: &mut ByteReader, count: u32, n: usize) -> (r: Result<Vec<usize>, FormatError>)
    requires
        old(rd).wf(),
    ensures
        final(rd).wf(),
        final(rd).data == old(rd).data,
        final(rd).big_endian == old(rd).big_endian,
        final(rd).pos >= old(rd).pos,
        r is Ok ==> r->Ok_0@.len() == count && forall|j: int|
            0 <= j < count ==> #[trigger] r->Ok_0@[j] < n,
{
    let mut out: Vec<usize> = Vec::new();
    let mut k: u32 = 0;
    while k < count
        invariant
            rd.wf(),
            rd.data == old(rd).data,
            rd.big_endian == old(rd).big_endian,
            rd.pos >= old(rd).pos,
            k <= count,
            out@.len() == k,
            forall|j: int| 0 <= j < k ==> #[trigger] out@[j] < n,
        decreases count - k,
    {
        let v = match read_type_ref(rd, n) {
            Ok(v) => v,
            Err(x) => return Err(x),
        };
        out.push(v);
        k = k + 1;
    }
    Ok(out)
}

/// Reads the units of a physical type: a varint count, then a name and a
/// 64-bit value for each unit.
fn read_units(rd: &mut ByteReader, nstr: usize) -> (r: Result<Vec<Unit>, FormatError>)
    requires
        old(rd).wf(),
    ensures
        final(rd).wf(),
        final(rd).data == old(rd).data,
        final(rd).big_endian == old(rd).big_endian,
        final(rd).pos >= old(rd).pos,
        r is Ok ==> forall|j: int| 0 <= j < r->Ok_0@.len() ==> #[trigger] r->Ok_0@[j].name < nstr,
{
    let count = match rd.read_varint() {
        Ok(c) => c,
        Err(x) => return Err(x),
    };
    let mut out: Vec<Unit> = Vec::new();
    let mut k: u32 = 0;
    while k < count
        invariant
            rd.wf(),
            rd.data == old(rd).data,
            rd.big_endian == old(rd).big_endian,
            rd.pos >= old(rd).pos,
            k <= count,
            forall|j: int| 0 <= j < out@.len() ==> #[trigger] out@[j].name < nstr,
        decreases count - k,
    {
        let name = match read_name(rd, nstr) {
            Ok(v) => v,
            Err(x) => return Err(x),
        };
        let value = match rd.read_i64() {
            Ok(v) => v,
            Err(x) => return Err(x),
        };
        out.push(Unit { name, value });
        k = k + 1;
    }
    Ok(out)
}

/// The scalar ids that `fields` flatten to: those of each field's type, in
/// order; `None` when some field's size is left open.
pub open spec fn fields_scalars(t: TypeTable, fields: Seq<Field>) -> Option<Seq<usize>>
    decreases fields.len(),
{
    if fields.len() == 0 {
        Some(Seq::empty())
    } else {
        match (fields_scalars(t, fields.drop_last()), t.scalars_of(fields.last().type_id as int)) {
            (Some(a), Some(b)) => Some(a + b),
            _ => None,
        }
    }
}

/// Reads the fields of a record type, a varint count then a name and a type
/// reference for each, and the scalar ids the record flattens to: those of
/// its fields in order, or `None` when a field's size is left open.
fn read_fields(rd: &mut ByteReader, nstr: usize, t: &TypeTable) -> (r: Result<
    (Vec<Field>, Option<Vec<usize>>),
    FormatError,
>)
    requires
        old(rd).wf(),
        t.wf(nstr as int),
    ensures
        final(rd).wf(),
        final(rd).data == old(rd).data,
        final(rd).big_endian == old(rd).big_endian,
        final(rd).pos >= old(rd).pos,
        r is Ok ==> {
            &&& forall|j: int|
                0 <= j < r->Ok_0.0@.len() ==> (#[trigger] r->Ok_0.0@[j]).name < nstr
                    && r->Ok_0.0@[j].type_id < t.entries@.len()
            &&& match r->Ok_0.1 {
                Some(v) => v@.len() <= MAX_SCALARS && forall|j: int|
                    0 <= j < v@.len() ==> #[trigger] v@[j] < t.entries@.len() && is_scalar_desc(
                        t.entries@[v@[j] as int].desc,
                    ),
                None => true,
            }
            &&& match r->Ok_0.1 {
                Some(v) => fields_scalars(*t, r->Ok_0.0@) == Some(v@),
                None => fields_scalars(*t, r->Ok_0.0@) is None,
            }
        },
{
    let count = match rd.read_varint() {
        Ok(c) => c,
        Err(x) => return Err(x),
    };
    let n = t.entries.len();
    let mut fields: Vec<Field> = Vec::new();
    let mut flat: Vec<usize> = Vec::new();
    let mut open = false;
    let mut k: u32 = 0;
    while k < count
        invariant
            rd.wf(),
            rd.data == old(rd).data,
            rd.big_endian == old(rd).big_endian,
            rd.pos >= old(rd).pos,
            k <= count,
            n == t.entries@.len(),
            t.wf(nstr as int),
            forall|j: int|
                0 <= j < fields@.len() ==> (#[trigger] fields@[j]).name < nstr
                    && fields@[j].type_id < n,
            flat@.len() <= MAX_SCALARS,
            !open ==> fields_scalars(*t, fields@) == Some(flat@),
            open ==> fields_scalars(*t, fields@) is None,
            forall|j: int|
                0 <= j < flat@.len() ==> #[trigger] flat@[j] < n && is_scalar_desc(
                    t.entries@[flat@[j] as int].desc,
                ),
        decreases count - k,
    {
        let name = match read_name(rd, nstr) {
            Ok(v) => v,
            Err(x) => return Err(x),
        };
        let type_id = match read_type_ref(rd, n) {
            Ok(v) => v,
            Err(x) => return Err(x),
        };
        let ghost fields_before = fields@;
        fields.push(Field { name, type_id });
        proof {
            assert(fields@.drop_last() =~= fields_before);
        }
        match &t.entries[type_id].scalars {
            Some(v) => {
                if !open {
                    if v.len() > MAX_SCALARS - flat.len() {
                        return Err(FormatError::Overflow);
                    }
                    proof {
                        assert(t.entry_ok(type_id as int, nstr as int));
                        assert(t.scalars_of(type_id as int) == Some(v@));
                    }
                    let ghost before = flat@;
                    append_ids(&mut flat, v);
                    assert forall|j: int| 0 <= j < flat@.len() implies #[trigger] flat@[j] < n
                        && is_scalar_desc(t.entries@[flat@[j] as int].desc) by {
                        if j >= before.len() {
                            assert(flat@[j] == v@[j - before.len()]);
                        }
                    }
                }
            },
            None => {
                open = true;
            },
        }
        k = k + 1;
    }
    if open {
        Ok((fields, None))
    } else {
        Ok((fields, Some(flat)))
    }
}

/// The product of the first `k` lengths: the number of elements.
pub open spec fn product(lengths: Seq<u32>, k: int) -> nat
    decreases k,
{
    if k <= 0 {
        1
    } else {
        product(lengths, k - 1) * lengths[k - 1] as nat
    }
}

/// `el` repeated `c` times.
pub open spec fn repeat(el: Seq<usize>, c: nat) -> Seq<usize>
    decreases c,
{
    if c == 0 {
        Seq::empty()
    } else {
        repeat(el, (c - 1) as nat) + el
    }
}

proof fn lemma_repeat_empty(el: Seq<usize>, c: nat)
    requires
        el.len() == 0,
    ensures
        repeat(el, c) =~= Seq::<usize>::empty(),
    decreases c,
{
    if c > 0 {
        lemma_repeat_empty(el, (c - 1) as nat);
    }
}

/// The scalar ids of an array subtype: those of its element repeated once
/// per element, the element count being the product of `lengths`.
fn repeat_scalars(el: &Vec<usize>, lengths: &Vec<u32>) -> (r: Result<Vec<usize>, FormatError>)
    ensures
        r is Ok ==> r->Ok_0@.len() <= MAX_SCALARS && forall|j: int|
            0 <= j < r->Ok_0@.len() ==> el@.contains(#[trigger] r->Ok_0@[j]),
        el@.len() == 0 ==> r is Ok && r->Ok_0@.len() == 0,
        el@.len() > 0 && product(lengths@, lengths@.len() as int) * el@.len() > MAX_SCALARS ==> r
            == Err::<Vec<usize>, FormatError>(FormatError::Overflow),
        el@.len() > 0 && product(lengths@, lengths@.len() as int) * el@.len() <= MAX_SCALARS ==> r is Ok
            && r->Ok_0@ == repeat(el@, product(lengths@, lengths@.len() as int)),
{
    let mut out: Vec<usize> = Vec::new();
    if el.len() == 0 {
        return Ok(out);
    }
    let ghost l = el@.len() as int;
    let ghost n = product(lengths@, lengths@.len() as int);
    let mut total: u64 = 1;
    let mut d: usize = 0;
    while d < lengths.len()
        invariant
            d <= lengths@.len(),
            total <= MAX_SCALARS * 0x1_0000_0000,
            product(lengths@, d as int) <= MAX_SCALARS ==> total == product(lengths@, d as int),
            product(lengths@, d as int) > MAX_SCALARS ==> total > MAX_SCALARS,
        decreases lengths@.len() - d,
    {
        let len = lengths[d];
        let ghost pd = product(lengths@, d as int);
        assert(product(lengths@, d + 1) == pd * len);
        assert(pd >= 0);
        if len == 0 {
            assert(pd * len == 0) by (nonlinear_arith)
                requires
                    len == 0,
            ;
            total = 0;
        } else if total <= MAX_SCALARS as u64 {
            assert(pd == total);
            assert(total * len <= MAX_SCALARS * 0x1_0000_0000) by (nonlinear_arith)
                requires
                    total <= MAX_SCALARS,
                    len <= 0xffff_ffff,
            ;
            total = total * len as u64;
            assert(total == pd * len);
        } else {
            assert(pd > MAX_SCALARS);
            assert(pd * len >= pd) by (nonlinear_arith)
                requires
                    len >= 1,
                    pd >= 0,
            ;
        }
        d = d + 1;
    }
    assert(lengths@.take(lengths@.len() as int) =~= lengths@);
    let mut c: u64 = 0;
    while c < total
        invariant
            l == el@.len() > 0,
            c <= total,
            out@ == repeat(el@, c as nat),
            out@.len() == c * l,
            c * l <= MAX_SCALARS,
            n == product(lengths@, lengths@.len() as int),
            n <= MAX_SCALARS ==> total == n,
            n > MAX_SCALARS ==> total > MAX_SCALARS,
            forall|j: int| 0 <= j < out@.len() ==> el@.contains(#[trigger] out@[j]),
        decreases total - c,
    {
        if el.len() > MAX_SCALARS - out.len() {
            proof {
                assert(c * l + l > MAX_SCALARS);
                if n <= MAX_SCALARS {
                    assert(total == n);
                    assert(n * l >= c * l + l) by (nonlinear_arith)
                        requires
                            n >= c + 1,
                            l >= 0,
                    ;
                } else {
                    assert(n * l >= n) by (nonlinear_arith)
                        requires
                            l >= 1,
                            n >= 0,
                    ;
                }
            }
            return Err(FormatError::Overflow);
        }
        let ghost before = out@;
        append_ids(&mut out, el);
        assert forall|j: int| 0 <= j < out@.len() implies el@.contains(#[trigger] out@[j]) by {
            if j >= before.len() {
                assert(out@[j] == el@[j - before.len()]);
            } else {
                assert(out@[j] == before[j]);
            }
        }
        assert((c + 1) * l == c * l + l) by (nonlinear_arith);
        c = c + 1;
    }
    proof {
        assert(c == total);
        if n > MAX_SCALARS {
            assert(c * l >= c) by (nonlinear_arith)
                requires
                    l >= 1,
                    c >= 0,
            ;
        }
    }
    Ok(out)
}

/// A vector that holds `id` alone.
fn single(id: usize) -> (r: Vec<usize>)
    ensures
        r@ == seq![id],
{
    let mut v: Vec<usize> = Vec::new();
    v.push(id);
    assert(v@ =~= seq![id]);
    v
}

/// An array subtype flattens to its element's scalars repeated once per
/// element, the element count being the product of its lengths.
pub open spec fn array_subtype_scalars_ok(t: &TypeTable, e: &TypeEntry) -> bool {
    match e.desc {
        GHWType::Subtype { base, constraint: Constraint::Lengths(ls), .. } => match t.entries@[base as int].desc {
            GHWType::Array { element, .. } => match t.scalars_of(element as int) {
                Some(v) => e.scalars is Some && e.scalars->Some_0@ == repeat(v, product(ls@, ls@.len() as int)),
                None => e.scalars is None,
            },
            _ => true,
        },
        _ => true,
    }
}

/// The kind codes that open a type record: the scalar, access, array,
/// record and file types, and the subtypes but the obsolete pointer one.
pub open spec fn is_type_kind(code: int) -> bool {
    22 <= code <= 39 && code != 36
}

/// Reads one type record: a kind byte, then the fields that kind carries.
#[verifier::rlimit(60)]
pub fn decode_entry(rd: &mut ByteReader, nstr: usize, t: &TypeTable) -> (r: Result<TypeEntry, FormatError>)
    requires
        old(rd).wf(),
        t.wf(nstr as int),
    ensures
        final(rd).wf(),
        final(rd).data == old(rd).data,
        final(rd).big_endian == old(rd).big_endian,
        final(rd).pos >= old(rd).pos,
        r is Ok ==> fits_after(t, &r->Ok_0, nstr as int),
        r is Ok ==> array_subtype_scalars_ok(t, &r->Ok_0),
        r is Ok && r->Ok_0.desc is Record ==> match r->Ok_0.scalars {
            Some(v) => fields_scalars(*t, r->Ok_0.desc->Record_fields@) == Some(v@),
            None => fields_scalars(*t, r->Ok_0.desc->Record_fields@) is None,
        },
        old(rd).pos >= old(rd).data@.len() ==> r == Err::<TypeEntry, FormatError>(FormatError::Truncated),
        old(rd).pos < old(rd).data@.len() ==> {
            let tag = old(rd).data@[old(rd).pos as int] as int;
            &&& !is_type_kind(tag) ==> r == Err::<TypeEntry, FormatError>(FormatError::MalformedType)
            &&& r is Ok ==> rtik_of(tag) == Some(desc_kind(r->Ok_0.desc)) && varint_at(
                old(rd).data@,
                old(rd).pos + 1,
            ) is Ok && desc_name(r->Ok_0.desc) == varint_at(old(rd).data@, old(rd).pos + 1)->Ok_0.0
        },
{
    let n = t.entries.len();
    let tag = match rd.read_u8() {
        Ok(b) => b,
        Err(x) => return Err(x),
    };
    let kind = match GHDLRTIK::from_i32(tag as i32) {
        Ok(k) => k,
        Err(x) => return Err(x),
    };
    match kind {
        GHDLRTIK::TypeB2 | GHDLRTIK::TypeE8 | GHDLRTIK::TypeE32 | GHDLRTIK::TypeI32 | GHDLRTIK::TypeI64
        | GHDLRTIK::TypeF64 | GHDLRTIK::TypeP32 | GHDLRTIK::TypeP64 | GHDLRTIK::TypeAccess
        | GHDLRTIK::TypeArray | GHDLRTIK::TypeRecord | GHDLRTIK::TypeFile | GHDLRTIK::SubtypeScalar
        | GHDLRTIK::SubtypeArray | GHDLRTIK::SubtypeUnboundedArray | GHDLRTIK::SubtypeRecord
        | GHDLRTIK::SubtypeUnboundedRecord => {},
        _ => return Err(FormatError::MalformedType),
    }
    let name = match read_name(rd, nstr) {
        Ok(v) => v,
        Err(x) => return Err(x),
    };
    match kind {
        GHDLRTIK::TypeB2 | GHDLRTIK::TypeE8 | GHDLRTIK::TypeE32 => {
            let count = match rd.read_varint() {
                Ok(c) => c,
                Err(x) => return Err(x),
            };
            let literals = match read_names(rd, count, nstr) {
                Ok(v) => v,
                Err(x) => return Err(x),
            };
            let e = TypeEntry {
                desc: GHWType::Enum { kind, name, literals },
                scalars: Some(single(n)),
                wkt: GHWWellKnownType::Unknown,
            };
            Ok(e)
        },
        GHDLRTIK::TypeI32 | GHDLRTIK::TypeI64 | GHDLRTIK::TypeF64 => {
            Ok(TypeEntry {
                desc: GHWType::Scalar { kind, name },
                scalars: Some(single(n)),
                wkt: GHWWellKnownType::Unknown,
            })
        },
        GHDLRTIK::TypeP32 | GHDLRTIK::TypeP64 => {
            let units = match read_units(rd, nstr) {
                Ok(v) => v,
                Err(x) => return Err(x),
            };
            Ok(TypeEntry {
                desc: GHWType::Physical { kind, name, units },
                scalars: Some(single(n)),
                wkt: GHWWellKnownType::Unknown,
            })
        },
        GHDLRTIK::TypeAccess | GHDLRTIK::TypeFile => {
            Ok(TypeEntry {
                desc: GHWType::Common { kind, name },
                scalars: None,
                wkt: GHWWellKnownType::Unknown,
            })
        },
        GHDLRTIK::TypeArray => {
            let element = match read_type_ref(rd, n) {
                Ok(v) => v,
                Err(x) => return Err(x),
            };
            let count = match rd.read_varint() {
                Ok(c) => c,
                Err(x) => return Err(x),
            };
            let dims = match read_type_refs(rd, count, n) {
                Ok(v) => v,
                Err(x) => return Err(x),
            };
            Ok(TypeEntry {
                desc: GHWType::Array { name, element, dims },
                scalars: None,
                wkt: GHWWellKnownType::Unknown,
            })
        },
        GHDLRTIK::TypeRecord => {
            let (fields, scalars) = match read_fields(rd, nstr, t) {
                Ok(v) => v,
                Err(x) => return Err(x),
            };
            Ok(TypeEntry {
                desc: GHWType::Record { name, fields },
                scalars,
                wkt: GHWWellKnownType::Unknown,
            })
        },
        GHDLRTIK::SubtypeScalar => {
            let base = match read_type_ref(rd, n) {
                Ok(v) => v,
                Err(x) => return Err(x),
            };
            let dir = match rd.read_u8() {
                Ok(b) => b,
                Err(x) => return Err(x),
            };
            if dir > 1 {
                return Err(FormatError::MalformedType);
            }
            let left = match rd.read_fixed(8) {
                Ok(v) => v,
                Err(x) => return Err(x),
            };
            let right = match rd.read_fixed(8) {
                Ok(v) => v,
                Err(x) => return Err(x),
            };
            match &t.entries[base].desc {
                GHWType::Enum { .. } | GHWType::Scalar { .. } | GHWType::Physical {
                    ..
                } => {},
                _ => return Err(FormatError::MalformedType),
            }
            proof {
                assert(t.entry_ok(base as int, nstr as int));
            }
            Ok(TypeEntry {
                desc: GHWType::Subtype {
                    kind,
                    name,
                    base,
                    constraint: Constraint::Range { downto: dir == 1, left, right },
                },
                scalars: Some(single(base)),
                wkt: GHWWellKnownType::Unknown,
            })
        },
        GHDLRTIK::SubtypeArray => {
            let base = match read_type_ref(rd, n) {
                Ok(v) => v,
                Err(x) => return Err(x),
            };
            let (element, ndims) = match &t.entries[base].desc {
                GHWType::Array { element, dims, .. } => (*element, dims.len()),
                _ => return Err(FormatError::MalformedType),
            };
            let mut lengths: Vec<u32> = Vec::new();
            let mut d: usize = 0;
            while d < ndims
                invariant
                    rd.wf(),
                    rd.data == old(rd).data,
                    rd.big_endian == old(rd).big_endian,
                    rd.pos >= old(rd).pos,
                    old(rd).pos < old(rd).data@.len(),
                    is_type_kind(old(rd).data@[old(rd).pos as int] as int),
                decreases ndims - d,
            {
                let len = match rd.read_varint() {
                    Ok(v) => v,
                    Err(x) => return Err(x),
                };
                lengths.push(len);
                d = d + 1;
            }
            proof {
                assert(t.entry_ok(base as int, nstr as int));
                assert(t.entry_ok(element as int, nstr as int));
            }
            let scalars = match &t.entries[element].scalars {
                Some(v) => {
                    proof {
                        assert(t.scalars_of(element as int) == Some(v@));
                    }
                    match repeat_scalars(v, &lengths) {
                        Ok(out) => {
                            proof {
                                if v@.len() == 0 {
                                    lemma_repeat_empty(v@, product(lengths@, lengths@.len() as int));
                                    assert(out@ =~= repeat(v@, product(lengths@, lengths@.len() as int)));
                                }
                            }
                            assert forall|j: int| 0 <= j < out@.len() implies #[trigger] out@[j] < n
                                && is_scalar_desc(t.entries@[out@[j] as int].desc) by {
                                assert(v@.contains(out@[j]));
                            }
                            Some(out)
                        },
                        Err(x) => return Err(x),
                    }
                },
                None => None,
            };
            Ok(TypeEntry {
                desc: GHWType::Subtype {
                    kind,
                    name,
                    base,
                    constraint: Constraint::Lengths(lengths),
                },
                scalars,
                wkt: GHWWellKnownType::Unknown,
            })
        },
        GHDLRTIK::SubtypeUnboundedArray | GHDLRTIK::SubtypeRecord
        | GHDLRTIK::SubtypeUnboundedRecord => {
            let base = match read_type_ref(rd, n) {
                Ok(v) => v,
                Err(x) => return Err(x),
            };
            let base_ok = match &t.entries[base].desc {
                GHWType::Array { .. } => kind == GHDLRTIK::SubtypeUnboundedArray,
                GHWType::Record { .. } => kind != GHDLRTIK::SubtypeUnboundedArray,
                _ => false,
            };
            if !base_ok {
                return Err(FormatError::MalformedType);
            }
            proof {
                assert(t.entry_ok(base as int, nstr as int));
            }
            let scalars = if kind == GHDLRTIK::SubtypeRecord {
                match &t.entries[base].scalars {
                    Some(v) => {
                        let mut out: Vec<usize> = Vec::new();
                        append_ids(&mut out, v);
                        proof {
                            assert(t.scalars_of(base as int) == Some(v@));
                            assert(out@ =~= v@);
                        }
                        Some(out)
                    },
                    None => None,
                }
            } else {
                None
            };
            let constraint = if kind == GHDLRTIK::SubtypeRecord {
                Constraint::Fields
            } else {
                Constraint::Unbounded
            };
            Ok(TypeEntry {
                desc: GHWType::Subtype { kind, name, base, constraint },
                scalars,
                wkt: GHWWellKnownType::Unknown,
            })
        },
        _ => Err(FormatError::MalformedType),
    }
}

/// The well-known-type tags after the (code, type index) pairs of a WKT
/// section at `i`, given the types' descriptors and their tags before, with
/// the position after the ending zero code. `fuel` bounds the number of
/// pairs; each takes at least two bytes.
pub open spec fn wkt_at(
    s: Seq<u8>,
    i: int,
    descs: Seq<GHWType>,
    wkts: Seq<GHWWellKnownType>,
    fuel: nat,
) -> Result<(Seq<GHWWellKnownType>, int), FormatError>
    decreases fuel,
{
    if fuel == 0 || i < 0 || i >= s.len() {
        Err(FormatError::Truncated)
    } else if s[i] == 0 {
        Ok((wkts, i + 1))
    } else {
        match wkt_of(s[i] as int) {
            None => Err(FormatError::MalformedType),
            Some(w) => match varint_at(s, i + 1) {
                Err(x) => Err(x),
                Ok((tid, e)) => if tid >= wkts.len() {
                    Err(FormatError::ForwardTypeReference)
                } else if !(descs[tid as int] is Enum) {
                    Err(FormatError::MalformedType)
                } else {
                    wkt_at(s, e, descs, wkts.update(tid as int, w), (fuel - 1) as nat)
                },
            },
        }
    }
}

impl TypeTable {
    /// The descriptors of the types, in order.
    pub open spec fn descs(&self) -> Seq<GHWType> {
        Seq::new(self.entries@.len(), |i: int| self.entries@[i].desc)
    }

    /// The well-known-type tags of the types, in order.
    pub open spec fn wkts(&self) -> Seq<GHWWellKnownType> {
        Seq::new(self.entries@.len(), |i: int| self.entries@[i].wkt)
    }

    /// An empty table.
    pub fn new() -> (r: TypeTable)
        ensures
            r.entries@.len() == 0,
    {
        TypeTable { entries: Vec::new() }
    }

    /// Reads a TYPE section: a varint count, then that many type records,
    /// numbered from 0 in order. Every reference in the result is backward.
    pub fn decode_types(rd: &mut ByteReader, nstr: usize) -> (r: Result<TypeTable, FormatError>)
        requires
            old(rd).wf(),
        ensures
            final(rd).wf(),
            final(rd).data == old(rd).data,
            final(rd).big_endian == old(rd).big_endian,
            final(rd).pos >= old(rd).pos,
            r is Ok ==> r->Ok_0.wf(nstr as int) && varint_at(old(rd).data@, old(rd).pos as int) is Ok
                && r->Ok_0.entries@.len() == varint_at(old(rd).data@, old(rd).pos as int)->Ok_0.0,
    {
        let count = match rd.read_varint() {
            Ok(c) => c,
            Err(x) => return Err(x),
        };
        let mut t = TypeTable::new();
        let mut k: u32 = 0;
        while k < count
            invariant
                rd.wf(),
                rd.data == old(rd).data,
                rd.big_endian == old(rd).big_endian,
                rd.pos >= old(rd).pos,
                k <= count,
                t.entries@.len() == k,
                t.wf(nstr as int),
            decreases count - k,
        {
            let e = match decode_entry(rd, nstr, &t) {
                Ok(e) => e,
                Err(x) => return Err(x),
            };
            let ghost before = t;
            t.entries.push(e);
            proof {
                assert forall|i: int| 0 <= i < t.entries@.len() implies #[trigger] t.entry_ok(
                    i,
                    nstr as int,
                ) by {
                    if i < before.entries@.len() {
                        assert(before.entry_ok(i, nstr as int));
                        assert(t.entries@[i] == before.entries@[i]);
                        assert(t.scalars_of(i) == before.scalars_of(i));
                    } else {
                        assert(t.entries@[i] == e);
                    }
                }
            }
            k = k + 1;
        }
        Ok(t)
    }

    /// Reads a WKT section: pairs of a well-known-type code byte and a type
    /// index, ended by a zero code. Each named type must be an enumeration,
    /// which is tagged with the code; other entries are left as they were.
    pub fn apply_wkt(&mut self, rd: &mut ByteReader) -> (r: Result<(), FormatError>)
        requires
            old(rd).wf(),
        ensures
            final(rd).wf(),
            final(rd).data == old(rd).data,
            final(rd).big_endian == old(rd).big_endian,
            final(rd).pos >= old(rd).pos,
            final(self).entries@.len() == old(self).entries@.len(),
            forall|i: int|
                0 <= i < old(self).entries@.len() ==> (#[trigger] final(self).entries@[i]).desc
                    == old(self).entries@[i].desc && final(self).entries@[i].scalars == old(
                    self,
                ).entries@[i].scalars,
            match wkt_at(
                old(rd).data@,
                old(rd).pos as int,
                old(self).descs(),
                old(self).wkts(),
                (old(rd).data@.len() - old(rd).pos + 1) as nat,
            ) {
                Ok((ws, e)) => r is Ok && final(self).wkts() == ws && final(rd).pos == e,
                Err(x) => r == Err::<(), FormatError>(x),
            },
    {
        let ghost s = rd.data@;
        let ghost mut fuel: nat = (s.len() - rd.pos + 1) as nat;
        loop
            invariant
                rd.wf(),
                rd.data == old(rd).data,
                rd.big_endian == old(rd).big_endian,
                rd.pos >= old(rd).pos,
                self.entries@.len() == old(self).entries@.len(),
                forall|i: int|
                    0 <= i < old(self).entries@.len() ==> (#[trigger] self.entries@[i]).desc
                        == old(self).entries@[i].desc && self.entries@[i].scalars == old(
                        self,
                    ).entries@[i].scalars,
                s == old(rd).data@,
                fuel >= s.len() - rd.pos + 1,
                self.descs() == old(self).descs(),
                wkt_at(
                    s,
                    old(rd).pos as int,
                    old(self).descs(),
                    old(self).wkts(),
                    (s.len() - old(rd).pos + 1) as nat,
                ) == wkt_at(s, rd.pos as int, old(self).descs(), self.wkts(), fuel),
            decreases rd.data@.len() - rd.pos,
        {
            proof {
                assert(self.descs() =~= old(self).descs());
            }
            let code = match rd.read_u8() {
                Ok(b) => b,
                Err(x) => return Err(x),
            };
            if code == 0 {
                return Ok(());
            }
            let w = match GHWWellKnownType::from_i32(code as i32) {
                Ok(w) => w,
                Err(x) => return Err(x),
            };
            let tid = match read_type_ref(rd, self.entries.len()) {
                Ok(v) => v,
                Err(x) => return Err(x),
            };
            match &self.entries[tid].desc {
                GHWType::Enum { .. } => {},
                _ => return Err(FormatError::MalformedType),
            }
            let ghost before = self.wkts();
            self.entries[tid].wkt = w;
            proof {
                assert(self.wkts() =~= before.update(tid as int, w));
                assert(self.descs() =~= old(self).descs());
                fuel = (fuel - 1) as nat;
            }
        }
    }
}

} // verus!
