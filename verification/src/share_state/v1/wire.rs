//! Primitive encodings of the binary share-state format: base-128 varints,
//! zero-terminated escaped byte strings and the zigzag mapping of signed integers.

use vstd::prelude::*;

verus! {

/// Why reading a primitive failed.
#[derive(Debug, Clone, Copy, PartialEq, Eq, Structural)]
pub enum WireError {
    /// The input ended before the value did.
    UnexpectedEof,
    /// A varint ran past ten bytes.
    InvalidVarint,
    /// A backslash was not followed by `0` or a backslash.
    InvalidEscapeSequence,
}

// ---------------------------------------------------------------------------
// Varints
// ---------------------------------------------------------------------------

/// `128` to the power `k`.
pub open spec fn pow128(k: nat) -> nat
    decreases k,
{
    if k == 0 {
        1
    } else {
        128 * pow128((k - 1) as nat)
    }
}

/// The varint encoding of `v`: seven bits per byte, least significant group first,
/// the high bit set on every byte but the last.
pub open spec fn varint_bytes(v: nat) -> Seq<u8>
    decreases v,
{
    if v < 128 {
        seq![v as u8]
    } else {
        seq![((v % 128) + 128) as u8] + varint_bytes(v / 128)
    }
}

/// The number that a run of varint bytes spells, before truncation to 64 bits.
pub open spec fn varint_value(s: Seq<u8>) -> nat
    decreases s.len(),
{
    if s.len() == 0 {
        0
    } else {
        (s[0] % 128) as nat + 128 * varint_value(s.drop_first())
    }
}

/// Looks for the end of a varint that starts at `s[0]`, having passed `i` bytes that
/// all had the high bit set: the varint's length, or why there is none.
pub open spec fn varint_scan(s: Seq<u8>, i: nat) -> Result<nat, WireError>
    decreases 10 - i,
{
    if i >= s.len() {
        Err(WireError::UnexpectedEof)
    } else if s[i as int] < 128 {
        Ok(i + 1)
    } else if i + 1 >= 10 {
        Err(WireError::InvalidVarint)
    } else {
        varint_scan(s, i + 1)
    }
}

/// Reading a varint at the start of `s`: the number of bytes it takes and its value,
/// whose bits beyond the 64th are dropped.
pub open spec fn parse_varint_spec(s: Seq<u8>) -> Result<(nat, u64), WireError> {
    match varint_scan(s, 0) {
        Ok(n) => Ok((n, (varint_value(s.take(n as int)) % 0x1_0000_0000_0000_0000) as u64)),
        Err(e) => Err(e),
    }
}

proof fn lemma_pow128_monotone(k: nat, n: nat)
    requires
        k <= n,
    ensures
        pow128(k) <= pow128(n),
        pow128(k) >= 1,
    decreases n,
{
    if n > k {
        lemma_pow128_monotone(k, (n - 1) as nat);
    } else if k > 0 {
        lemma_pow128_monotone((k - 1) as nat, (k - 1) as nat);
    }
}

proof fn lemma_pow128_nine()
    ensures
        pow128(9) == 0x8000_0000_0000_0000,
        pow128(10) == 0x40_0000_0000_0000_0000,
{
    reveal_with_fuel(pow128, 11);
}

/// Taking one more byte adds that byte's group at its weight.
proof fn lemma_varint_value_extend(s: Seq<u8>, k: nat)
    requires
        k < s.len(),
    ensures
        varint_value(s.take(k + 1int)) == varint_value(s.take(k as int)) + (s[k as int] % 128)
            * pow128(k),
    decreases k,
{
    let g = (s[k as int] % 128) as nat;
    if k == 0 {
        let one = s.take(1);
        assert(one.drop_first() == Seq::<u8>::empty());
        assert(s.take(0) == Seq::<u8>::empty());
        assert(one[0] == s[0]);
        assert(varint_value(one) == (one[0] % 128) as nat + 128 * varint_value(one.drop_first()));
        assert(varint_value(Seq::<u8>::empty()) == 0);
        assert(pow128(0) == 1);
    } else {
        let t = s.drop_first();
        lemma_varint_value_extend(t, (k - 1) as nat);
        let a = s.take(k + 1int);
        let b = s.take(k as int);
        assert(a.drop_first() == t.take(k as int));
        assert(b.drop_first() == t.take(k - 1));
        assert(a[0] == s[0]);
        assert(b[0] == s[0]);
        assert(t[k - 1] == s[k as int]);
        let s0 = (s[0] % 128) as nat;
        let va = varint_value(t.take(k as int));
        let vb = varint_value(t.take(k - 1));
        let p = pow128((k - 1) as nat);
        assert(varint_value(a) == s0 + 128 * va);
        assert(varint_value(b) == s0 + 128 * vb);
        assert(va == vb + g * p);
        assert(pow128(k) == 128 * p);
        assert(128 * (vb + g * p) == 128 * vb + g * (128 * p)) by (nonlinear_arith);
    }
}

/// A varint's bytes: all but the last have the high bit set, and they spell `v`.
proof fn lemma_varint_bytes_shape(v: nat)
    ensures
        varint_bytes(v).len() >= 1,
        forall|j: int| 0 <= j < varint_bytes(v).len() - 1 ==> #[trigger] varint_bytes(v)[j] >= 128,
        varint_bytes(v).last() < 128,
        varint_value(varint_bytes(v)) == v,
    decreases v,
{
    if v >= 128 {
        lemma_varint_bytes_shape(v / 128);
        let w = varint_bytes(v);
        let tail = varint_bytes(v / 128);
        assert(w.drop_first() == tail);
        assert forall|j: int| 0 <= j < w.len() - 1 implies #[trigger] w[j] >= 128 by {
            if j > 0 {
                assert(w[j] == tail[j - 1]);
            }
        }
        assert(w.last() == tail.last());
        assert(w[0] == ((v % 128) + 128) as u8);
        assert(w[0] % 128 == v % 128);
        assert(varint_value(w) == (w[0] % 128) as nat + 128 * varint_value(w.drop_first()));
        assert(v % 128 + 128 * (v / 128) == v);
    } else {
        let w = varint_bytes(v);
        assert(w == seq![v as u8]);
        assert(w.drop_first() == Seq::<u8>::empty());
        assert((v as u8) as nat == v);
        assert(varint_value(w) == (w[0] % 128) as nat + 128 * varint_value(w.drop_first()));
    }
}

/// A number below `128^n` takes at most `n` varint bytes.
proof fn lemma_varint_bytes_len(v: nat, n: nat)
    requires
        n >= 1,
        v < pow128(n),
    ensures
        varint_bytes(v).len() <= n,
    decreases v,
{
    if v >= 128 {
        assert(n >= 2) by {
            if n == 1 {
                assert(pow128(1) == 128 * pow128(0));
            }
        }
        assert(pow128(n) == 128 * pow128((n - 1) as nat));
        assert(v / 128 < pow128((n - 1) as nat));
        lemma_varint_bytes_len(v / 128, (n - 1) as nat);
    }
}

/// Scanning a written varint, followed by anything, finds its end.
proof fn lemma_varint_scan_written(w: Seq<u8>, rest: Seq<u8>, i: nat)
    requires
        1 <= w.len() <= 10,
        forall|j: int| 0 <= j < w.len() - 1 ==> #[trigger] w[j] >= 128,
        w.last() < 128,
        i < w.len(),
    ensures
        varint_scan(w + rest, i) == Ok::<nat, WireError>(w.len()),
    decreases w.len() - i,
{
    let s = w + rest;
    assert(s[i as int] == w[i as int]);
    if i + 1 < w.len() {
        lemma_varint_scan_written(w, rest, i + 1);
    }
}

/// A written varint reads back as the same number, whatever follows it.
pub proof fn lemma_varint_roundtrip(v: u64, rest: Seq<u8>)
    ensures
        parse_varint_spec(varint_bytes(v as nat) + rest) == Ok::<(nat, u64), WireError>(
            (varint_bytes(v as nat).len(), v),
        ),
{
    let w = varint_bytes(v as nat);
    lemma_varint_bytes_shape(v as nat);
    lemma_pow128_nine();
    lemma_varint_bytes_len(v as nat, 10);
    lemma_varint_scan_written(w, rest, 0);
    assert((w + rest).take(w.len() as int) == w);
}

/// Appends the varint encoding of `value`.
pub fn write_varint(output: &mut Vec<u8>, value: u64)
    ensures
        final(output)@ == old(output)@ + varint_bytes(value as nat),
{
    let mut v = value;
    while v >= 0x80
        invariant
            output@ + varint_bytes(v as nat) == old(output)@ + varint_bytes(value as nat),
        decreases v,
    {
        let b = ((v as u8) & 0x7f) | 0x80;
        assert(((v as u8) & 0x7f) | 0x80 == ((v % 128) + 128) as u8) by (bit_vector);
        assert(v >> 7 == v / 128) by (bit_vector);
        let ghost before = output@;
        output.push(b);
        assert(varint_bytes(v as nat) == seq![b] + varint_bytes((v / 128) as nat));
        assert(before.push(b) + varint_bytes((v / 128) as nat) == before + varint_bytes(
            v as nat,
        ));
        v = v >> 7;
    }
    let ghost before = output@;
    output.push(v as u8);
    assert(before.push(v as u8) == before + varint_bytes(v as nat));
}

/// Reads a varint that starts at `input[pos]`, returning the position after it and its
/// value.
pub fn parse_varint(input: &[u8], pos: usize) -> (r: Result<(usize, u64), WireError>)
    requires
        pos <= input.len(),
    ensures
        match r {
            Ok((next, v)) => pos < next <= input.len() && parse_varint_spec(
                input@.skip(pos as int),
            ) == Ok::<(nat, u64), WireError>(((next - pos) as nat, v)),
            Err(e) => parse_varint_spec(input@.skip(pos as int)) == Err::<(nat, u64), WireError>(
                e,
            ),
        },
{
    let ghost s = input@.skip(pos as int);
    let mut k: usize = 0;
    let mut acc: u128 = 0;
    let mut mult: u128 = 1;
    proof {
        lemma_pow128_nine();
        assert(s.take(0) == Seq::<u8>::empty());
    }
    loop
        invariant
            pos <= input.len(),
            s == input@.skip(pos as int),
            k < 10,
            pos + k <= input.len(),
            varint_scan(s, 0) == varint_scan(s, k as nat),
            acc == varint_value(s.take(k as int)),
            mult == pow128(k as nat),
            acc < mult,
            mult <= 0x8000_0000_0000_0000,
        decreases 10 - k,
    {
        if pos + k >= input.len() {
            return Err(WireError::UnexpectedEof);
        }
        let b = input[pos + k];
        assert(s[k as int] == b);
        proof {
            lemma_varint_value_extend(s, k as nat);
        }
        let group = (b % 128) as u128;
        assert(group * mult <= 127 * 0x8000_0000_0000_0000) by (nonlinear_arith)
            requires
                group < 128,
                mult <= 0x8000_0000_0000_0000,
        ;
        assert(acc + group * mult < 128 * mult) by (nonlinear_arith)
            requires
                acc < mult,
                group < 128,
        ;
        acc = acc + group * mult;
        if b < 128 {
            let value = (acc % 0x1_0000_0000_0000_0000u128) as u64;
            return Ok((pos + k + 1, value));
        }
        if k + 1 >= 10 {
            return Err(WireError::InvalidVarint);
        }
        proof {
            lemma_pow128_monotone((k + 1) as nat, 9);
            lemma_pow128_nine();
        }
        assert(pow128((k + 1) as nat) == 128 * pow128(k as nat));
        mult = mult * 128;
        k += 1;
    }
}

// ---------------------------------------------------------------------------
// Escaped byte strings
// ---------------------------------------------------------------------------

/// The escape of one byte: `0` becomes `\0`, a backslash becomes `\\`.
pub open spec fn escape_byte(b: u8) -> Seq<u8> {
    if b == 0 {
        seq![92u8, 48u8]
    } else if b == 92 {
        seq![92u8, 92u8]
    } else {
        seq![b]
    }
}

/// The escape of a byte string, byte by byte.
pub open spec fn escape_bytes(b: Seq<u8>) -> Seq<u8>
    decreases b.len(),
{
    if b.len() == 0 {
        Seq::<u8>::empty()
    } else {
        escape_bytes(b.drop_last()) + escape_byte(b.last())
    }
}

/// Undoing the escapes of a byte string, or `None` when a backslash is followed by
/// anything but `0` or a backslash, or by nothing.
pub open spec fn unescape_bytes(s: Seq<u8>) -> Option<Seq<u8>>
    decreases s.len(),
{
    if s.len() == 0 {
        Some(Seq::<u8>::empty())
    } else if s[0] == 92 {
        if s.len() < 2 {
            None
        } else if s[1] == 48 {
            match unescape_bytes(s.skip(2)) {
                Some(r) => Some(seq![0u8] + r),
                None => None,
            }
        } else if s[1] == 92 {
            match unescape_bytes(s.skip(2)) {
                Some(r) => Some(seq![92u8] + r),
                None => None,
            }
        } else {
            None
        }
    } else {
        match unescape_bytes(s.drop_first()) {
            Some(r) => Some(seq![s[0]] + r),
            None => None,
        }
    }
}

/// The index of the first zero byte of `s` at or after `i`.
pub open spec fn first_zero_from(s: Seq<u8>, i: nat) -> Option<nat>
    decreases s.len() - i,
{
    if i >= s.len() {
        None
    } else if s[i as int] == 0 {
        Some(i)
    } else {
        first_zero_from(s, i + 1)
    }
}

/// Reading a zero-terminated escaped byte string at the start of `s`: the number of
/// bytes it takes, terminator included, and the unescaped bytes.
pub open spec fn parse_bytes_spec(s: Seq<u8>) -> Result<(nat, Seq<u8>), WireError> {
    match first_zero_from(s, 0) {
        None => Err(WireError::UnexpectedEof),
        Some(j) => match unescape_bytes(s.take(j as int)) {
            None => Err(WireError::InvalidEscapeSequence),
            Some(r) => Ok((j + 1, r)),
        },
    }
}

/// Appends the escaped bytes and a zero terminator.
pub fn write_bytes(output: &mut Vec<u8>, bytes: &[u8])
    ensures
        final(output)@ == old(output)@ + escape_bytes(bytes@) + seq![0u8],
{
    let mut i: usize = 0;
    while i < bytes.len()
        invariant
            i <= bytes.len(),
            output@ == old(output)@ + escape_bytes(bytes@.take(i as int)),
        decreases bytes.len() - i,
    {
        let b = bytes[i];
        let ghost before = output@;
        assert(bytes@.take(i + 1).drop_last() == bytes@.take(i as int));
        assert(bytes@.take(i + 1).last() == b);
        if b == 0 {
            output.push(92u8);
            output.push(48u8);
            assert(before.push(92u8).push(48u8) == before + escape_byte(b));
        } else if b == 92 {
            output.push(92u8);
            output.push(92u8);
            assert(before.push(92u8).push(92u8) == before + escape_byte(b));
        } else {
            output.push(b);
            assert(before.push(b) == before + escape_byte(b));
        }
        i += 1;
    }
    assert(bytes@.take(bytes.len() as int) == bytes@);
    output.push(0u8);
}

/// Reads a zero-terminated escaped byte string that starts at `input[pos]`, returning
/// the position after its terminator and the unescaped bytes.
pub fn parse_bytes(input: &[u8], pos: usize) -> (r: Result<(usize, Vec<u8>), WireError>)
    requires
        pos <= input.len(),
    ensures
        match r {
            Ok((next, bytes)) => pos < next <= input.len() && parse_bytes_spec(
                input@.skip(pos as int),
            ) == Ok::<(nat, Seq<u8>), WireError>(((next - pos) as nat, bytes@)),
            Err(e) => parse_bytes_spec(input@.skip(pos as int)) == Err::<(nat, Seq<u8>), WireError>(
                e,
            ),
        },
{
    let ghost s = input@.skip(pos as int);
    // Find the terminator.
    let mut end: usize = pos;
    while end < input.len() && input[end] != 0
        invariant
            pos <= end <= input.len(),
            s == input@.skip(pos as int),
            first_zero_from(s, 0) == first_zero_from(s, (end - pos) as nat),
        decreases input.len() - end,
    {
        assert(s[end - pos] == input@[end as int]);
        end += 1;
    }
    if end >= input.len() {
        return Err(WireError::UnexpectedEof);
    }
    assert(s[end - pos] == input@[end as int]);
    assert(first_zero_from(s, (end - pos) as nat) == Some((end - pos) as nat));
    let ghost seg = s.take(end - pos);
    // Undo the escapes.
    let mut out: Vec<u8> = Vec::new();
    let mut i: usize = pos;
    assert(seg.skip(0) == seg);
    while i < end
        invariant
            pos <= i <= end < input.len(),
            s == input@.skip(pos as int),
            seg == s.take(end - pos),
            first_zero_from(s, 0) == Some((end - pos) as nat),
            unescape_bytes(seg) == match unescape_bytes(seg.skip(i - pos)) {
                Some(r) => Some(out@ + r),
                None => None::<Seq<u8>>,
            },
        decreases end - i,
    {
        let ghost t = seg.skip(i - pos);
        assert(t[0] == input@[i as int]);
        let b = input[i];
        if b == 92 {
            if i + 1 >= end {
                assert(t.len() < 2);
                assert(unescape_bytes(t) is None);
                return Err(WireError::InvalidEscapeSequence);
            }
            assert(t[1] == input@[i + 1]);
            let next = input[i + 1];
            assert(t.skip(2) == seg.skip(i + 2 - pos));
            if next == 48 {
                proof {
                    assert(out@.push(0u8) + unescape_bytes(t.skip(2))->0 == out@ + (seq![0u8]
                        + unescape_bytes(t.skip(2))->0));
                }
                out.push(0u8);
            } else if next == 92 {
                proof {
                    assert(out@.push(92u8) + unescape_bytes(t.skip(2))->0 == out@ + (seq![92u8]
                        + unescape_bytes(t.skip(2))->0));
                }
                out.push(92u8);
            } else {
                assert(unescape_bytes(t) is None);
                return Err(WireError::InvalidEscapeSequence);
            }
            i += 2;
        } else {
            assert(t.drop_first() == seg.skip(i + 1 - pos));
            proof {
                assert(out@.push(b) + unescape_bytes(t.drop_first())->0 == out@ + (seq![b]
                    + unescape_bytes(t.drop_first())->0));
            }
            out.push(b);
            i += 1;
        }
    }
    assert(seg.skip(end - pos) == Seq::<u8>::empty());
    assert(out@ + Seq::<u8>::empty() == out@);
    Ok((end + 1, out))
}

/// The escape of a byte string seen from its front.
proof fn lemma_escape_bytes_front(b: Seq<u8>)
    requires
        b.len() > 0,
    ensures
        escape_bytes(b) == escape_byte(b[0]) + escape_bytes(b.drop_first()),
    decreases b.len(),
{
    if b.len() == 1 {
        assert(b.drop_last() == Seq::<u8>::empty());
        assert(b.drop_first() == Seq::<u8>::empty());
        assert(escape_bytes(b.drop_first()) == Seq::<u8>::empty());
    } else {
        lemma_escape_bytes_front(b.drop_last());
        assert(b.drop_last().drop_first() == b.drop_first().drop_last());
        assert(b.drop_first().last() == b.last());
    }
}

/// Escaped bytes hold no zero byte.
proof fn lemma_escape_bytes_no_zero(b: Seq<u8>)
    ensures
        forall|j: int| 0 <= j < escape_bytes(b).len() ==> #[trigger] escape_bytes(b)[j] != 0,
    decreases b.len(),
{
    if b.len() > 0 {
        lemma_escape_bytes_no_zero(b.drop_last());
        let e = escape_bytes(b.drop_last());
        let x = escape_byte(b.last());
        assert forall|j: int| 0 <= j < (e + x).len() implies #[trigger] (e + x)[j] != 0 by {
            if j >= e.len() {
                assert((e + x)[j] == x[j - e.len()]);
            }
        }
    }
}

/// Unescaping undoes escaping, whatever follows.
proof fn lemma_unescape_escape(b: Seq<u8>)
    ensures
        unescape_bytes(escape_bytes(b)) == Some(b),
    decreases b.len(),
{
    if b.len() == 0 {
    } else {
        lemma_escape_bytes_front(b);
        lemma_unescape_escape(b.drop_first());
        let x = escape_byte(b[0]);
        let e = escape_bytes(b.drop_first());
        let s = x + e;
        if b[0] == 0 || b[0] == 92 {
            assert(s.skip(2) == e);
        } else {
            assert(s.drop_first() == e);
        }
        assert(seq![b[0]] + b.drop_first() == b);
    }
}

proof fn lemma_first_zero_after(s: Seq<u8>, n: nat, i: nat)
    requires
        n < s.len(),
        s[n as int] == 0,
        i <= n,
        forall|j: int| 0 <= j < n ==> #[trigger] s[j] != 0,
    ensures
        first_zero_from(s, i) == Some(n),
    decreases n - i,
{
    if i < n {
        lemma_first_zero_after(s, n, i + 1);
    }
}

/// Written bytes read back as the same bytes, whatever follows them.
pub proof fn lemma_bytes_roundtrip(b: Seq<u8>, rest: Seq<u8>)
    ensures
        parse_bytes_spec(escape_bytes(b) + seq![0u8] + rest) == Ok::<(nat, Seq<u8>), WireError>(
            (escape_bytes(b).len() + 1, b),
        ),
{
    let e = escape_bytes(b);
    let s = e + seq![0u8] + rest;
    lemma_escape_bytes_no_zero(b);
    assert forall|j: int| 0 <= j < e.len() implies #[trigger] s[j] != 0 by {
        assert(s[j] == e[j]);
    }
    assert(s[e.len() as int] == 0);
    lemma_first_zero_after(s, e.len(), 0);
    assert(s.take(e.len() as int) == e);
    lemma_unescape_escape(b);
}

// ---------------------------------------------------------------------------
// Zigzag
// ---------------------------------------------------------------------------

/// The zigzag code of a signed integer: `0, -1, 1, -2, ...` become `0, 1, 2, 3, ...`.
pub open spec fn zigzag(v: int) -> int {
    if v >= 0 {
        2 * v
    } else {
        -2 * v - 1
    }
}

/// The signed integer that a zigzag code stands for.
pub open spec fn unzigzag(u: int) -> int {
    if u % 2 == 0 {
        u / 2
    } else {
        -((u + 1) / 2)
    }
}

/// The zigzag code of `value`.
pub fn encode_signed(value: i64) -> (r: u64)
    ensures
        r == zigzag(value as int),
{
    if value >= 0 {
        (value as u64) * 2
    } else {
        ((-(value + 1)) as u64) * 2 + 1
    }
}

/// The signed integer that the zigzag code `value` stands for.
pub fn decode_signed(value: u64) -> (r: i64)
    ensures
        r == unzigzag(value as int),
{
    let half = (value / 2) as i64;
    if value % 2 == 0 {
        half
    } else {
        -half - 1
    }
}

/// Decoding a zigzag code gives back the signed integer.
pub proof fn lemma_zigzag_roundtrip(v: int)
    ensures
        unzigzag(zigzag(v)) == v,
{
}

/// Every code is the zigzag code of the integer it stands for.
pub proof fn lemma_unzigzag_roundtrip(u: int)
    requires
        u >= 0,
    ensures
        zigzag(unzigzag(u)) == u,
{
}

} // verus!
