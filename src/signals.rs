//! Signal values: the snapshot that gives every slot its first value, and
//! the cycles that change some of them as time advances.
use vstd::prelude::*;
use crate::error::FormatError;
use crate::reader::{ByteReader, fixed_value, signed32, signed64, varint_at};
use crate::rtik::GHDLRTIK;
use crate::types::{GHWType, TypeTable, is_scalar_desc};

verus! {

/// The value of one scalar signal. Enumeration values are literal
/// positions; a floating value is kept as its 64-bit pattern.
#[derive(Debug, Clone, Copy, PartialEq, Eq, Structural)]
pub enum GHWValue {
    B2(u8),
    E8(u8),
    E32(u32),
    I32(i32),
    I64(i64),
    F64(u64),
}

/// One elementary signal: its scalar type, current value and the time of
/// its last change.
#[derive(Debug, Clone, Copy, PartialEq, Eq, Structural)]
pub struct SignalSlot {
    pub type_id: usize,
    pub value: GHWValue,
    pub last_change: i64,
}

/// `v` lies in the domain of the scalar type described by `d`: an
/// enumeration position below the literal count, or a number of the type's
/// width.
pub open spec fn value_fits(d: GHWType, v: GHWValue) -> bool {
    match d {
        GHWType::Enum { kind, literals, .. } => match v {
            GHWValue::B2(o) => kind == GHDLRTIK::TypeB2 && o < literals@.len(),
            GHWValue::E8(o) => kind == GHDLRTIK::TypeE8 && o < literals@.len(),
            GHWValue::E32(o) => kind == GHDLRTIK::TypeE32 && o < literals@.len(),
            _ => false,
        },
        GHWType::Scalar { kind, .. } => match v {
            GHWValue::I32(_) => kind == GHDLRTIK::TypeI32,
            GHWValue::I64(_) => kind == GHDLRTIK::TypeI64,
            GHWValue::F64(_) => kind == GHDLRTIK::TypeF64,
            _ => false,
        },
        GHWType::Physical { kind, .. } => match v {
            GHWValue::I32(_) => kind == GHDLRTIK::TypeP32,
            GHWValue::I64(_) => kind == GHDLRTIK::TypeP64,
            _ => false,
        },
        _ => false,
    }
}

/// Every slot holds a value of its own scalar type, and the slots follow
/// `slot_types` one for one.
pub open spec fn slots_fit(slots: Seq<SignalSlot>, slot_types: Seq<usize>, types: &TypeTable) -> bool {
    &&& slots.len() == slot_types.len()
    &&& forall|k: int|
        0 <= k < slots.len() ==> (#[trigger] slots[k]).type_id == slot_types[k] && slots[k].type_id
            < types.entries@.len() && value_fits(types.entries@[slots[k].type_id as int].desc, slots[k].value)
}

/// The value of the scalar type `d` stored at `i`, with the position after
/// it; see `read_value` for the encoding.
pub open spec fn value_at(s: Seq<u8>, i: int, be: bool, d: GHWType) -> Result<(GHWValue, int), FormatError> {
    match d {
        GHWType::Enum { kind, literals, .. } => if kind == GHDLRTIK::TypeB2 || kind == GHDLRTIK::TypeE8 {
            if i < 0 || i >= s.len() {
                Err(FormatError::Truncated)
            } else if s[i] >= literals@.len() {
                Err(FormatError::ValueTypeMismatch)
            } else if kind == GHDLRTIK::TypeB2 {
                Ok((GHWValue::B2(s[i]), i + 1))
            } else {
                Ok((GHWValue::E8(s[i]), i + 1))
            }
        } else {
            match varint_at(s, i) {
                Ok((v, e)) => if v >= literals@.len() || kind != GHDLRTIK::TypeE32 {
                    Err(FormatError::ValueTypeMismatch)
                } else {
                    Ok((GHWValue::E32(v as u32), e))
                },
                Err(x) => Err(x),
            }
        },
        GHWType::Scalar { kind, .. } => if kind == GHDLRTIK::TypeI32 {
            fixed32_at(s, i, be)
        } else if kind == GHDLRTIK::TypeI64 {
            fixed64_at(s, i, be)
        } else if kind == GHDLRTIK::TypeF64 {
            if i + 8 > s.len() {
                Err(FormatError::Truncated)
            } else {
                Ok((GHWValue::F64(fixed_value(s, i, 8, be) as u64), i + 8))
            }
        } else {
            Err(FormatError::ValueTypeMismatch)
        },
        GHWType::Physical { kind, .. } => if kind == GHDLRTIK::TypeP32 {
            fixed32_at(s, i, be)
        } else if kind == GHDLRTIK::TypeP64 {
            fixed64_at(s, i, be)
        } else {
            Err(FormatError::ValueTypeMismatch)
        },
        _ => Err(FormatError::ValueTypeMismatch),
    }
}

/// A 32-bit two's complement value at `i`.
pub open spec fn fixed32_at(s: Seq<u8>, i: int, be: bool) -> Result<(GHWValue, int), FormatError> {
    if i + 4 > s.len() {
        Err(FormatError::Truncated)
    } else {
        Ok((GHWValue::I32(signed32(fixed_value(s, i, 4, be)) as i32), i + 4))
    }
}

/// A 64-bit two's complement value at `i`.
pub open spec fn fixed64_at(s: Seq<u8>, i: int, be: bool) -> Result<(GHWValue, int), FormatError> {
    if i + 8 > s.len() {
        Err(FormatError::Truncated)
    } else {
        Ok((GHWValue::I64(signed64(fixed_value(s, i, 8, be)) as i64), i + 8))
    }
}

/// The values of the scalar types `ids`, stored one after the other from `i`.
pub open spec fn values_at(s: Seq<u8>, i: int, be: bool, t: TypeTable, ids: Seq<usize>) -> Result<
    (Seq<GHWValue>, int),
    FormatError,
>
    decreases ids.len(),
{
    if ids.len() == 0 {
        Ok((Seq::empty(), i))
    } else {
        match values_at(s, i, be, t, ids.drop_last()) {
            Ok((vs, e)) => match value_at(s, e, be, t.entries@[ids.last() as int].desc) {
                Ok((v, f)) => Ok((vs.push(v), f)),
                Err(x) => Err(x),
            },
            Err(x) => Err(x),
        }
    }
}

proof fn lemma_values_prefix_err(s: Seq<u8>, i: int, be: bool, t: TypeTable, ids: Seq<usize>, k: int)
    requires
        0 <= k <= ids.len(),
        values_at(s, i, be, t, ids.take(k)) is Err,
    ensures
        values_at(s, i, be, t, ids) == values_at(s, i, be, t, ids.take(k)),
    decreases ids.len() - k,
{
    if k < ids.len() {
        assert(ids.take(k + 1).drop_last() =~= ids.take(k));
        lemma_values_prefix_err(s, i, be, t, ids, k + 1);
    } else {
        assert(ids.take(k) =~= ids);
    }
}

/// Reads one value of the scalar type `tid`: one byte for a two- or
/// eight-bit enumeration, a varint for a wider one, four bytes for a 32-bit
/// integer or physical value, eight for a 64-bit one or a float. A position
/// past the literal count is rejected.
pub fn read_value(rd: &mut ByteReader, types: &TypeTable, tid: usize) -> (r: Result<GHWValue, FormatError>)
    requires
        old(rd).wf(),
        tid < types.entries@.len(),
        is_scalar_desc(types.entries@[tid as int].desc),
    ensures
        final(rd).wf(),
        final(rd).data == old(rd).data,
        final(rd).big_endian == old(rd).big_endian,
        final(rd).pos >= old(rd).pos,
        r is Ok ==> value_fits(types.entries@[tid as int].desc, r->Ok_0),
        match value_at(old(rd).data@, old(rd).pos as int, old(rd).big_endian, types.entries@[tid as int].desc) {
            Ok((v, e)) => r == Ok::<GHWValue, FormatError>(v) && final(rd).pos == e,
            Err(x) => r == Err::<GHWValue, FormatError>(x),
        },
{
    match &types.entries[tid].desc {
        GHWType::Enum { kind, literals, .. } => {
            let o: u32 = match kind {
                GHDLRTIK::TypeB2 | GHDLRTIK::TypeE8 => match rd.read_u8() {
                    Ok(b) => b as u32,
                    Err(x) => return Err(x),
                },
                _ => match rd.read_varint() {
                    Ok(v) => v,
                    Err(x) => return Err(x),
                },
            };
            if o as usize >= literals.len() {
                return Err(FormatError::ValueTypeMismatch);
            }
            match kind {
                GHDLRTIK::TypeB2 => Ok(GHWValue::B2(o as u8)),
                GHDLRTIK::TypeE8 => Ok(GHWValue::E8(o as u8)),
                GHDLRTIK::TypeE32 => Ok(GHWValue::E32(o)),
                _ => Err(FormatError::ValueTypeMismatch),
            }
        },
        GHWType::Physical { kind, .. } => {
            match kind {
                GHDLRTIK::TypeP32 => match rd.read_i32() {
                    Ok(v) => Ok(GHWValue::I32(v)),
                    Err(x) => Err(x),
                },
                GHDLRTIK::TypeP64 => match rd.read_i64() {
                    Ok(v) => Ok(GHWValue::I64(v)),
                    Err(x) => Err(x),
                },
                _ => Err(FormatError::ValueTypeMismatch),
            }
        },
        GHWType::Scalar { kind, .. } => {
            match kind {
                GHDLRTIK::TypeI32 => match rd.read_i32() {
                    Ok(v) => Ok(GHWValue::I32(v)),
                    Err(x) => Err(x),
                },
                GHDLRTIK::TypeI64 => match rd.read_i64() {
                    Ok(v) => Ok(GHWValue::I64(v)),
                    Err(x) => Err(x),
                },
                GHDLRTIK::TypeF64 => match rd.read_fixed(8) {
                    Ok(v) => Ok(GHWValue::F64(v)),
                    Err(x) => Err(x),
                },
                _ => Err(FormatError::ValueTypeMismatch),
            }
        },
        _ => Err(FormatError::ValueTypeMismatch),
    }
}

/// Reads a SNAPSHOT section: one value per slot, in slot order, each of
/// the slot's own type. Every slot starts with its last change at time 0.
pub fn decode_snapshot(rd: &mut ByteReader, types: &TypeTable, slot_types: &Vec<usize>) -> (r: Result<
    Vec<SignalSlot>,
    FormatError,
>)
    requires
        old(rd).wf(),
        forall|k: int|
            0 <= k < slot_types@.len() ==> (#[trigger] slot_types@[k]) < types.entries@.len()
                && is_scalar_desc(types.entries@[slot_types@[k] as int].desc),
    ensures
        final(rd).wf(),
        final(rd).data == old(rd).data,
        final(rd).big_endian == old(rd).big_endian,
        final(rd).pos >= old(rd).pos,
        r is Ok ==> slots_fit(r->Ok_0@, slot_types@, types) && forall|k: int|
            0 <= k < r->Ok_0@.len() ==> (#[trigger] r->Ok_0@[k]).last_change == 0,
        match values_at(old(rd).data@, old(rd).pos as int, old(rd).big_endian, *types, slot_types@) {
            Ok((vs, e)) => r is Ok && r->Ok_0@.len() == vs.len() && final(rd).pos == e && forall|k: int|
                0 <= k < vs.len() ==> (#[trigger] r->Ok_0@[k]).value == vs[k],
            Err(x) => r == Err::<Vec<SignalSlot>, FormatError>(x),
        },
{
    let ghost s = rd.data@;
    let ghost start = rd.pos as int;
    let ghost be = rd.big_endian;
    let mut slots: Vec<SignalSlot> = Vec::new();
    let mut k: usize = 0;
    while k < slot_types.len()
        invariant
            rd.wf(),
            rd.data == old(rd).data,
            rd.big_endian == old(rd).big_endian,
            rd.pos >= old(rd).pos,
            k <= slot_types@.len(),
            slots@.len() == k,
            forall|j: int|
                0 <= j < slot_types@.len() ==> (#[trigger] slot_types@[j]) < types.entries@.len()
                    && is_scalar_desc(types.entries@[slot_types@[j] as int].desc),
            forall|j: int|
                0 <= j < k ==> (#[trigger] slots@[j]).type_id == slot_types@[j] && slots@[j].type_id
                    < types.entries@.len() && value_fits(types.entries@[slots@[j].type_id as int].desc, slots@[j].value)
                    && slots@[j].last_change == 0,
            s == old(rd).data@,
            start == old(rd).pos,
            be == old(rd).big_endian,
            match values_at(s, start, be, *types, slot_types@.take(k as int)) {
                Ok((vs, e)) => vs.len() == k && rd.pos == e && forall|j: int|
                    0 <= j < k ==> (#[trigger] slots@[j]).value == vs[j],
                Err(_) => false,
            },
        decreases slot_types@.len() - k,
    {
        let tid = slot_types[k];
        proof {
            assert(slot_types@.take(k + 1).drop_last() =~= slot_types@.take(k as int));
            assert(slot_types@.take(k + 1).last() == tid);
        }
        let value = match read_value(rd, types, tid) {
            Ok(v) => v,
            Err(x) => {
                proof {
                    lemma_values_prefix_err(s, start, be, *types, slot_types@, k + 1);
                }
                return Err(x);
            },
        };
        slots.push(SignalSlot { type_id: tid, value, last_change: 0 });
        k = k + 1;
    }
    assert(slot_types@.take(k as int) =~= slot_types@);
    Ok(slots)
}

/// The slots after the (index step, value) pairs of a cycle at time `now`,
/// read from `i` with `cursor` the slot after the previous one named, and
/// the position after the ending zero step. `fuel` bounds the number of
/// pairs; each takes at least one byte.
pub open spec fn pairs_at(
    s: Seq<u8>,
    i: int,
    be: bool,
    t: TypeTable,
    slots: Seq<SignalSlot>,
    cursor: int,
    now: i64,
    fuel: nat,
) -> Result<(Seq<SignalSlot>, int), FormatError>
    decreases fuel,
{
    if fuel == 0 {
        Err(FormatError::Truncated)
    } else {
        match varint_at(s, i) {
            Err(x) => Err(x),
            Ok((step, e)) => if step == 0 {
                Ok((slots, e))
            } else if step > slots.len() - cursor {
                Err(FormatError::BadSignalIndex)
            } else {
                let idx = cursor + step - 1;
                let tid = slots[idx].type_id;
                match value_at(s, e, be, t.entries@[tid as int].desc) {
                    Err(x) => Err(x),
                    Ok((v, f)) => pairs_at(
                        s,
                        f,
                        be,
                        t,
                        slots.update(idx, SignalSlot { type_id: tid, value: v, last_change: now }),
                        idx + 1,
                        now,
                        (fuel - 1) as nat,
                    ),
                }
            },
        }
    }
}

/// A CYCLE section at `i` read at time `now`: the slots after it, the new
/// time and the position after it.
pub open spec fn cycle_at(s: Seq<u8>, i: int, be: bool, t: TypeTable, slots: Seq<SignalSlot>, now: i64) -> Result<
    (Seq<SignalSlot>, i64, int),
    FormatError,
> {
    if i + 8 > s.len() {
        Err(FormatError::Truncated)
    } else {
        let delta = signed64(fixed_value(s, i, 8, be));
        if delta < 0 {
            Err(FormatError::NonMonotonicTime)
        } else if now + delta > i64::MAX {
            Err(FormatError::Overflow)
        } else {
            match pairs_at(s, i + 8, be, t, slots, 0, (now + delta) as i64, (s.len() - i - 7) as nat) {
                Ok((ns, e)) => Ok((ns, (now + delta) as i64, e)),
                Err(x) => Err(x),
            }
        }
    }
}

/// Reads a CYCLE section at time `now`: a 64-bit time delta, then pairs of
/// a varint index step and a value, ended by a zero step. The first step
/// names slot `step - 1`, each later one the slot `step` past the previous.
/// Named slots take the value and the new time; the others keep theirs.
/// Returns the new time, which is never below `now`.
pub fn decode_cycle(
    rd: &mut ByteReader,
    types: &TypeTable,
    slots: &mut Vec<SignalSlot>,
    now: i64,
) -> (r: Result<i64, FormatError>)
    requires
        old(rd).wf(),
        forall|k: int|
            0 <= k < old(slots)@.len() ==> (#[trigger] old(slots)@[k]).type_id < types.entries@.len()
                && is_scalar_desc(types.entries@[old(slots)@[k].type_id as int].desc)
                && value_fits(types.entries@[old(slots)@[k].type_id as int].desc, old(slots)@[k].value),
    ensures
        final(rd).wf(),
        final(rd).data == old(rd).data,
        final(rd).big_endian == old(rd).big_endian,
        final(rd).pos >= old(rd).pos,
        final(slots)@.len() == old(slots)@.len(),
        forall|k: int|
            0 <= k < final(slots)@.len() ==> (#[trigger] final(slots)@[k]).type_id == old(slots)@[k].type_id
                && value_fits(types.entries@[final(slots)@[k].type_id as int].desc, final(slots)@[k].value),
        r is Ok ==> r->Ok_0 >= now,
        r is Ok ==> forall|k: int|
            0 <= k < final(slots)@.len() ==> #[trigger] final(slots)@[k] == old(slots)@[k]
                || final(slots)@[k].last_change == r->Ok_0,
        match cycle_at(old(rd).data@, old(rd).pos as int, old(rd).big_endian, *types, old(slots)@, now) {
            Ok((ns, t, e)) => r == Ok::<i64, FormatError>(t) && final(slots)@ == ns && final(rd).pos == e,
            Err(x) => r == Err::<i64, FormatError>(x),
        },
{
    let ghost s = rd.data@;
    let ghost be = rd.big_endian;
    let ghost start = rd.pos as int + 8;
    let delta = match rd.read_i64() {
        Ok(d) => d,
        Err(x) => return Err(x),
    };
    if delta < 0 {
        return Err(FormatError::NonMonotonicTime);
    }
    if now > i64::MAX - delta {
        return Err(FormatError::Overflow);
    }
    let t = now + delta;
    let n = slots.len();
    let mut cursor: usize = 0;
    let ghost mut fuel: nat = (s.len() - start + 1) as nat;
    loop
        invariant
            s == old(rd).data@,
            be == old(rd).big_endian,
            start == old(rd).pos + 8,
            start <= s.len(),
            t == now + signed64(fixed_value(s, old(rd).pos as int, 8, be)),
            rd.pos >= start,
            fuel >= s.len() - rd.pos + 1,
            pairs_at(s, start, be, *types, old(slots)@, 0, t, (s.len() - start + 1) as nat)
                == pairs_at(s, rd.pos as int, be, *types, slots@, cursor as int, t, fuel),
            rd.wf(),
            rd.data == old(rd).data,
            rd.big_endian == old(rd).big_endian,
            rd.pos >= old(rd).pos,
            t >= now,
            n == slots@.len(),
            cursor <= n,
            slots@.len() == old(slots)@.len(),
            forall|k: int|
                0 <= k < slots@.len() ==> (#[trigger] slots@[k]).type_id == old(slots)@[k].type_id
                    && value_fits(types.entries@[slots@[k].type_id as int].desc, slots@[k].value),
            forall|k: int|
                0 <= k < old(slots)@.len() ==> (#[trigger] old(slots)@[k]).type_id < types.entries@.len()
                    && is_scalar_desc(types.entries@[old(slots)@[k].type_id as int].desc),
            forall|k: int|
                0 <= k < slots@.len() ==> #[trigger] slots@[k] == old(slots)@[k] || slots@[k].last_change == t,
        decreases rd.data@.len() - rd.pos,
    {
        let step = match rd.read_varint() {
            Ok(v) => v,
            Err(x) => return Err(x),
        };
        if step == 0 {
            return Ok(t);
        }
        if step as usize > n - cursor {
            return Err(FormatError::BadSignalIndex);
        }
        let idx = cursor + step as usize - 1;
        let tid = slots[idx].type_id;
        let value = match read_value(rd, types, tid) {
            Ok(v) => v,
            Err(x) => return Err(x),
        };
        let ghost before = slots@;
        slots.set(idx, SignalSlot { type_id: tid, value, last_change: t });
        proof {
            assert(slots@ == before.update(idx as int, SignalSlot { type_id: tid, value, last_change: t }));
            fuel = (fuel - 1) as nat;
        }
        cursor = idx + 1;
    }
}

} // verus!
