use vstd::prelude::*;
use crate::error::FormatError;

verus! {

/// The number 128 raised to `n`: one more than the largest value that `n`
/// seven-bit groups can hold.
pub open spec fn pow128(n: nat) -> nat
    decreases n,
{
    if n == 0 { 1 } else { 128 * pow128((n - 1) as nat) }
}

/// The unsigned LEB128 number that starts at `i` in `s`, using at most `n`
/// bytes, with the position just after it. Each byte gives seven bits, low
/// group first; a byte below 128 is the last one.
pub open spec fn leb_at(s: Seq<u8>, i: int, n: nat) -> Result<(nat, int), FormatError>
    decreases n,
{
    if i < 0 || i >= s.len() {
        Err(FormatError::Truncated)
    } else if n == 0 {
        Err(FormatError::Overflow)
    } else if s[i] < 128 {
        Ok((s[i] as nat, i + 1))
    } else {
        match leb_at(s, i + 1, (n - 1) as nat) {
            Ok((v, e)) => Ok(((s[i] - 128) as nat + 128 * v, e)),
            Err(x) => Err(x),
        }
    }
}

/// A 32-bit varint at `i`: at most five bytes, and a value that fits `u32`.
pub open spec fn varint_at(s: Seq<u8>, i: int) -> Result<(nat, int), FormatError> {
    match leb_at(s, i, 5) {
        Ok((v, e)) => if v <= u32::MAX { Ok((v, e)) } else { Err(FormatError::Overflow) },
        Err(x) => Err(x),
    }
}

/// The unsigned value of `k` bytes at `i`, least significant byte first.
pub open spec fn le_value(s: Seq<u8>, i: int, k: nat) -> nat
    decreases k,
{
    if k == 0 { 0 } else { s[i] as nat + 256 * le_value(s, i + 1, (k - 1) as nat) }
}

/// The unsigned value of `k` bytes at `i`, most significant byte first.
pub open spec fn be_value(s: Seq<u8>, i: int, k: nat) -> nat
    decreases k,
{
    if k == 0 { 0 } else { be_value(s, i, (k - 1) as nat) * 256 + s[i + k - 1] as nat }
}

/// The unsigned value of `k` bytes at `i` in the stream's byte order.
pub open spec fn fixed_value(s: Seq<u8>, i: int, k: nat, big_endian: bool) -> nat {
    if big_endian { be_value(s, i, k) } else { le_value(s, i, k) }
}

/// The two's complement reading of a 64-bit pattern.
pub open spec fn signed64(v: nat) -> int {
    if v < 0x8000_0000_0000_0000 { v as int } else { v - 0x1_0000_0000_0000_0000 }
}

/// The two's complement reading of a 32-bit pattern.
pub open spec fn signed32(v: nat) -> int {
    if v < 0x8000_0000 { v as int } else { v - 0x1_0000_0000 }
}

/// A forward-only cursor over the bytes of a file, with the byte order that
/// the header declared.
pub struct ByteReader {
    pub data: Vec<u8>,
    pub pos: usize,
    pub big_endian: bool,
}

/// Reads the varint at `i` with at most `n` bytes, as `leb_at` describes.
fn leb_from(s: &Vec<u8>, i: usize, n: u32) -> (r: Result<(u64, usize), FormatError>)
    requires
        n <= 5,
    ensures
        match r {
            Ok((v, e)) => leb_at(s@, i as int, n as nat) == Ok::<(nat, int), FormatError>(
                (v as nat, e as int),
            ) && v < pow128(n as nat) && i < e <= s@.len(),
            Err(x) => leb_at(s@, i as int, n as nat) == Err::<(nat, int), FormatError>(x),
        },
    decreases n,
{
    if i >= s.len() {
        return Err(FormatError::Truncated);
    }
    if n == 0 {
        return Err(FormatError::Overflow);
    }
    let b = s[i];
    if b < 128 {
        assert(pow128(n as nat) == 128 * pow128((n - 1) as nat));
        assert(pow128((n - 1) as nat) >= 1) by { lemma_pow128_pos((n - 1) as nat); }
        return Ok((b as u64, i + 1));
    }
    match leb_from(s, i + 1, n - 1) {
        Ok((v, e)) => {
            proof { lemma_pow128_le((n - 1) as nat, 4); }
            proof { lemma_pow128_four(); }
            assert(pow128(n as nat) == 128 * pow128((n - 1) as nat));
            Ok(((b - 128) as u64 + 128 * v, e))
        },
        Err(x) => Err(x),
    }
}

/// The number 256 raised to `n`.
pub open spec fn pow256(n: nat) -> nat
    decreases n,
{
    if n == 0 { 1 } else { 256 * pow256((n - 1) as nat) }
}

proof fn lemma_pow256_eight()
    ensures
        pow256(4) == 0x1_0000_0000,
        pow256(8) == 0x1_0000_0000_0000_0000,
{
    assert(pow256(0) == 1);
    assert(pow256(1) == 0x100);
    assert(pow256(2) == 0x1_0000);
    assert(pow256(3) == 0x100_0000);
    assert(pow256(4) == 0x1_0000_0000);
    assert(pow256(5) == 0x100_0000_0000);
    assert(pow256(6) == 0x1_0000_0000_0000);
    assert(pow256(7) == 0x100_0000_0000_0000);
}

proof fn lemma_pow256_le(a: nat, b: nat)
    requires
        a <= b,
    ensures
        1 <= pow256(a) <= pow256(b),
    decreases b,
{
    if a < b {
        lemma_pow256_le(a, (b - 1) as nat);
    } else if a > 0 {
        lemma_pow256_le((a - 1) as nat, (a - 1) as nat);
    }
}

proof fn lemma_le_value_bound(s: Seq<u8>, i: int, k: nat)
    ensures
        le_value(s, i, k) < pow256(k),
    decreases k,
{
    if k > 0 {
        lemma_le_value_bound(s, i + 1, (k - 1) as nat);
    }
}

proof fn lemma_be_value_bound(s: Seq<u8>, i: int, k: nat)
    ensures
        be_value(s, i, k) < pow256(k),
    decreases k,
{
    if k > 0 {
        lemma_be_value_bound(s, i, (k - 1) as nat);
    }
}

proof fn lemma_pow128_four()
    ensures
        pow128(4) == 268435456,
{
    assert(pow128(0) == 1);
    assert(pow128(1) == 128);
    assert(pow128(2) == 16384);
    assert(pow128(3) == 2097152);
}

proof fn lemma_pow128_pos(n: nat)
    ensures
        pow128(n) >= 1,
    decreases n,
{
    if n > 0 {
        lemma_pow128_pos((n - 1) as nat);
    }
}

proof fn lemma_pow128_le(a: nat, b: nat)
    requires
        a <= b,
    ensures
        pow128(a) <= pow128(b),
    decreases b,
{
    if a < b {
        lemma_pow128_le(a, (b - 1) as nat);
        lemma_pow128_pos((b - 1) as nat);
    }
}

/// The `k` bytes at `i` as an unsigned number, in the given byte order.
fn fixed_from(s: &Vec<u8>, i: usize, k: usize, big_endian: bool) -> (r: u64)
    requires
        k <= 8,
        i + k <= s@.len(),
    ensures
        r == fixed_value(s@, i as int, k as nat, big_endian),
        r < pow256(k as nat),
{
        let n = s.len();
        let mut acc: u64 = 0;
        proof { lemma_pow256_eight(); }
        if big_endian {
            let mut j: usize = 0;
            while j < k
                invariant
                    j <= k <= 8,
                    i + k <= n == s@.len(),
                    acc == be_value(s@, i as int, j as nat),
                    pow256(8) == 0x1_0000_0000_0000_0000,
                decreases k - j,
            {
                proof {
                    lemma_be_value_bound(s@, i as int, j as nat);
                    lemma_pow256_le((j + 1) as nat, 8);
                }
                acc = acc * 256 + s[i + j] as u64;
                j = j + 1;
            }
        } else {
            let mut j: usize = k;
            while j > 0
                invariant
                    j <= k <= 8,
                    i + k <= n == s@.len(),
                    acc == le_value(s@, i + j, (k - j) as nat),
                    pow256(8) == 0x1_0000_0000_0000_0000,
                decreases j,
            {
                proof {
                    lemma_le_value_bound(s@, i + j, (k - j) as nat);
                    lemma_pow256_le((k - j + 1) as nat, 8);
                }
                acc = s[i + j - 1] as u64 + 256 * acc;
                j = j - 1;
            }
        }
        proof {
            lemma_le_value_bound(s@, i as int, k as nat);
            lemma_be_value_bound(s@, i as int, k as nat);
        }
        acc
}

impl ByteReader {
    /// A reader at the start of `data`, little-endian until the header says
    /// otherwise.
    pub fn new(data: Vec<u8>) -> (r: ByteReader)
        ensures
            r.data@ == data@,
            r.pos == 0,
            !r.big_endian,
    {
        ByteReader { data, pos: 0, big_endian: false }
    }

    pub open spec fn wf(&self) -> bool {
        self.pos <= self.data@.len()
    }

    /// True when the whole stream has been consumed.
    pub fn at_end(&self) -> (r: bool)
        ensures
            r == (self.pos >= self.data@.len()),
    {
        self.pos >= self.data.len()
    }

    /// Reads one byte.
    pub fn read_u8(&mut self) -> (r: Result<u8, FormatError>)
        requires
            old(self).wf(),
        ensures
            final(self).wf(),
            final(self).data == old(self).data,
            final(self).big_endian == old(self).big_endian,
            final(self).pos >= old(self).pos,
            old(self).pos < old(self).data@.len() ==> r == Ok::<u8, FormatError>(
                old(self).data@[old(self).pos as int],
            ) && final(self).pos == old(self).pos + 1,
            old(self).pos >= old(self).data@.len() ==> r == Err::<u8, FormatError>(
                FormatError::Truncated,
            ) && final(self).pos == old(self).pos,
    {
        if self.pos < self.data.len() {
            let b = self.data[self.pos];
            self.pos = self.pos + 1;
            Ok(b)
        } else {
            Err(FormatError::Truncated)
        }
    }

    /// Reads `k` bytes as an unsigned number in the stream's byte order.
    pub fn read_fixed(&mut self, k: usize) -> (r: Result<u64, FormatError>)
        requires
            old(self).wf(),
            k <= 8,
        ensures
            final(self).wf(),
            final(self).data == old(self).data,
            final(self).big_endian == old(self).big_endian,
            final(self).pos >= old(self).pos,
            old(self).pos + k <= old(self).data@.len() ==> r is Ok && r->Ok_0 == fixed_value(
                old(self).data@,
                old(self).pos as int,
                k as nat,
                old(self).big_endian,
            ) && final(self).pos == old(self).pos + k,
            old(self).pos + k > old(self).data@.len() ==> r == Err::<u64, FormatError>(
                FormatError::Truncated,
            ) && final(self).pos == old(self).pos,
            r is Ok ==> r->Ok_0 < pow256(k as nat),
    {
        if k > self.data.len() - self.pos {
            return Err(FormatError::Truncated);
        }
        let i = self.pos;
        let acc = fixed_from(&self.data, i, k, self.big_endian);
        self.pos = i + k;
        Ok(acc)
    }

    /// Reads a 32-bit two's complement integer.
    pub fn read_i32(&mut self) -> (r: Result<i32, FormatError>)
        requires
            old(self).wf(),
        ensures
            final(self).wf(),
            final(self).data == old(self).data,
            final(self).big_endian == old(self).big_endian,
            final(self).pos >= old(self).pos,
            old(self).pos + 4 <= old(self).data@.len() ==> r is Ok && r->Ok_0 == signed32(
                fixed_value(old(self).data@, old(self).pos as int, 4, old(self).big_endian),
            ) && final(self).pos == old(self).pos + 4,
            old(self).pos + 4 > old(self).data@.len() ==> r == Err::<i32, FormatError>(
                FormatError::Truncated,
            ) && final(self).pos == old(self).pos,
    {
        proof { lemma_pow256_eight(); }
        let v = match self.read_fixed(4) {
            Ok(v) => v,
            Err(x) => return Err(x),
        };
        if v < 0x8000_0000 {
            Ok(v as i32)
        } else {
            Ok(((v - 0x8000_0000) as i32) - 0x7fff_ffff - 1)
        }
    }

    /// Reads a 64-bit two's complement integer.
    pub fn read_i64(&mut self) -> (r: Result<i64, FormatError>)
        requires
            old(self).wf(),
        ensures
            final(self).wf(),
            final(self).data == old(self).data,
            final(self).big_endian == old(self).big_endian,
            final(self).pos >= old(self).pos,
            old(self).pos + 8 <= old(self).data@.len() ==> r is Ok && r->Ok_0 == signed64(
                fixed_value(old(self).data@, old(self).pos as int, 8, old(self).big_endian),
            ) && final(self).pos == old(self).pos + 8,
            old(self).pos + 8 > old(self).data@.len() ==> r == Err::<i64, FormatError>(
                FormatError::Truncated,
            ) && final(self).pos == old(self).pos,
    {
        proof { lemma_pow256_eight(); }
        let v = match self.read_fixed(8) {
            Ok(v) => v,
            Err(x) => return Err(x),
        };
        if v < 0x8000_0000_0000_0000 {
            Ok(v as i64)
        } else {
            Ok(((v - 0x8000_0000_0000_0000) as i64) - 0x7fff_ffff_ffff_ffff - 1)
        }
    }

    /// Reads the next `len` bytes.
    pub fn read_bytes(&mut self, len: usize) -> (r: Result<Vec<u8>, FormatError>)
        requires
            old(self).wf(),
        ensures
            final(self).wf(),
            final(self).data == old(self).data,
            final(self).big_endian == old(self).big_endian,
            final(self).pos >= old(self).pos,
            old(self).pos + len <= old(self).data@.len() ==> r is Ok && r->Ok_0@
                == old(self).data@.subrange(old(self).pos as int, old(self).pos + len)
                && final(self).pos == old(self).pos + len,
            old(self).pos + len > old(self).data@.len() ==> r == Err::<Vec<u8>, FormatError>(
                FormatError::Truncated,
            ) && final(self).pos == old(self).pos,
    {
        if len > self.data.len() - self.pos {
            return Err(FormatError::Truncated);
        }
        let start = self.pos;
        let n = self.data.len();
        let mut out: Vec<u8> = Vec::new();
        let mut j: usize = 0;
        while j < len
            invariant
                j <= len,
                start + len <= n == self.data@.len(),
                out@ == self.data@.subrange(start as int, start + j),
            decreases len - j,
        {
            out.push(self.data[start + j]);
            j = j + 1;
            assert(out@ =~= self.data@.subrange(start as int, start + j));
        }
        self.pos = start + len;
        Ok(out)
    }

    /// Reads an unsigned varint of at most five bytes whose value fits `u32`.
    pub fn read_varint(&mut self) -> (r: Result<u32, FormatError>)
        requires
            old(self).wf(),
        ensures
            final(self).wf(),
            final(self).data == old(self).data,
            final(self).big_endian == old(self).big_endian,
            final(self).pos >= old(self).pos,
            r is Ok ==> final(self).pos > old(self).pos,
            match varint_at(old(self).data@, old(self).pos as int) {
                Ok((v, e)) => r == Ok::<u32, FormatError>(v as u32) && final(self).pos == e,
                Err(x) => r == Err::<u32, FormatError>(x) && final(self).pos == old(self).pos,
            },
    {
        proof {
            lemma_pow128_four();
            assert(pow128(5) == 128 * pow128(4));
        }
        match leb_from(&self.data, self.pos, 5) {
            Ok((v, e)) => {
                if v <= 0xffff_ffff {
                    self.pos = e;
                    Ok(v as u32)
                } else {
                    Err(FormatError::Overflow)
                }
            },
            Err(x) => Err(x),
        }
    }
}

} // verus!
