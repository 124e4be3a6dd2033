//! Character-level text utilities: Unicode whitespace, trimming and decimal numbers.

use vstd::prelude::*;

verus! {

/// Appends one character to a string.
///
/// Calls `String::push`, which the standard library documents as appending the
/// given `char` to the end of the string.
#[verifier::external_body]
pub(crate) fn push_char(s: &mut String, c: char)
    ensures
        final(s)@ == old(s)@.push(c),
{
    s.push(c);
}

/// The characters of a string slice, in order.
pub fn chars_of(s: &str) -> (out: Vec<char>)
    ensures
        out@ == s@,
{
    let mut out: Vec<char> = Vec::new();
    for c in it: s.chars()
        invariant
            out@ == it.seq().take(it.index() as int),
            it.seq() == s@,
    {
        out.push(c);
    }
    out
}

/// A string made of the given characters.
pub fn string_from_chars(cs: &[char]) -> (out: String)
    ensures
        out@ == cs@,
{
    let mut out = String::new();
    let mut i: usize = 0;
    while i < cs.len()
        invariant
            i <= cs.len(),
            out@ == cs@.take(i as int),
        decreases cs.len() - i,
    {
        push_char(&mut out, cs[i]);
        assert(cs@.take(i + 1) == cs@.take(i as int).push(cs@[i as int]));
        i += 1;
    }
    assert(cs@.take(cs.len() as int) == cs@);
    out
}

/// Appends the characters of `tail` to `out`.
pub fn append_chars(out: &mut String, tail: &str)
    ensures
        final(out)@ == old(out)@ + tail@,
{
    let cs = chars_of(tail);
    let mut i: usize = 0;
    while i < cs.len()
        invariant
            i <= cs.len(),
            cs@ == tail@,
            out@ == old(out)@ + cs@.take(i as int),
        decreases cs.len() - i,
    {
        push_char(out, cs[i]);
        assert(cs@.take(i + 1) == cs@.take(i as int).push(cs@[i as int]));
        i += 1;
    }
    assert(cs@.take(cs.len() as int) == cs@);
}

/// Whether two strings hold the same characters.
pub fn text_eq(a: &str, b: &str) -> (r: bool)
    ensures
        r == (a@ == b@),
{
    let x = chars_of(a);
    let y = chars_of(b);
    if x.len() != y.len() {
        return false;
    }
    let mut i: usize = 0;
    while i < x.len()
        invariant
            i <= x.len(),
            x.len() == y.len(),
            x@ == a@,
            y@ == b@,
            forall|j: int| 0 <= j < i ==> x@[j] == y@[j],
        decreases x.len() - i,
    {
        if x[i] != y[i] {
            return false;
        }
        i += 1;
    }
    assert(x@ =~= y@);
    true
}

/// The characters of `cs` from index `k` on.
pub fn slice_from(cs: &Vec<char>, k: usize) -> (out: Vec<char>)
    requires
        k <= cs.len(),
    ensures
        out@ == cs@.skip(k as int),
{
    let mut out: Vec<char> = Vec::new();
    let mut i: usize = k;
    while i < cs.len()
        invariant
            k <= i <= cs.len(),
            out@ == cs@.subrange(k as int, i as int),
        decreases cs.len() - i,
    {
        out.push(cs[i]);
        assert(cs@.subrange(k as int, i + 1) == cs@.subrange(k as int, i as int).push(cs@[i as int]));
        i += 1;
    }
    out
}

/// The first `k` characters of `cs`.
pub fn slice_to(cs: &Vec<char>, k: usize) -> (out: Vec<char>)
    requires
        k <= cs.len(),
    ensures
        out@ == cs@.take(k as int),
{
    let mut out: Vec<char> = Vec::new();
    let mut i: usize = 0;
    while i < k
        invariant
            i <= k <= cs.len(),
            out@ == cs@.take(i as int),
        decreases k - i,
    {
        out.push(cs[i]);
        assert(cs@.take(i + 1) == cs@.take(i as int).push(cs@[i as int]));
        i += 1;
    }
    out
}

/// The first index at or after `i` where `s` holds `c`.
pub open spec fn index_of_from(s: Seq<char>, c: char, i: nat) -> Option<nat>
    decreases s.len() - i,
{
    if i >= s.len() {
        None
    } else if s[i as int] == c {
        Some(i)
    } else {
        index_of_from(s, c, i + 1)
    }
}

/// The first index at or after `from` where `cs` holds `c`, as `index_of_from` states it.
pub fn find_char(cs: &Vec<char>, c: char, from: usize) -> (r: Option<usize>)
    requires
        from <= cs.len(),
    ensures
        match r {
            Some(k) => index_of_from(cs@, c, from as nat) == Some(k as nat),
            None => index_of_from(cs@, c, from as nat) is None,
        },
        r matches Some(k) ==> from <= k < cs.len() && cs@[k as int] == c,
    decreases cs.len() - from,
{
    if from == cs.len() {
        None
    } else if cs[from] == c {
        Some(from)
    } else {
        find_char(cs, c, from + 1)
    }
}

// ---------------------------------------------------------------------------
// Unicode whitespace and trimming
// ---------------------------------------------------------------------------

/// The `White_Space` property of Unicode, which `char::is_whitespace` tests.
pub open spec fn is_unicode_whitespace(c: char) -> bool {
    let u = c as u32;
    ||| 0x09 <= u <= 0x0D
    ||| u == 0x20
    ||| u == 0x85
    ||| u == 0xA0
    ||| u == 0x1680
    ||| 0x2000 <= u <= 0x200A
    ||| u == 0x2028
    ||| u == 0x2029
    ||| u == 0x202F
    ||| u == 0x205F
    ||| u == 0x3000
}

/// Whether `c` has the Unicode `White_Space` property.
pub fn is_whitespace(c: char) -> (r: bool)
    ensures
        r == is_unicode_whitespace(c),
{
    let u = c as u32;
    (0x09 <= u && u <= 0x0D) || u == 0x20 || u == 0x85 || u == 0xA0 || u == 0x1680 || (0x2000 <= u
        && u <= 0x200A) || u == 0x2028 || u == 0x2029 || u == 0x202F || u == 0x205F || u == 0x3000
}

/// The number of whitespace characters at the start of `s`.
pub open spec fn leading_whitespace(s: Seq<char>) -> nat
    decreases s.len(),
{
    if s.len() > 0 && is_unicode_whitespace(s[0]) {
        1 + leading_whitespace(s.drop_first())
    } else {
        0
    }
}

/// The number of whitespace characters at the end of `s`.
pub open spec fn trailing_whitespace(s: Seq<char>) -> nat
    decreases s.len(),
{
    if s.len() > 0 && is_unicode_whitespace(s.last()) {
        1 + trailing_whitespace(s.drop_last())
    } else {
        0
    }
}

/// `s` without its leading and trailing Unicode whitespace, as `str::trim` gives it.
pub open spec fn trim(s: Seq<char>) -> Seq<char> {
    let t = s.skip(leading_whitespace(s) as int);
    t.take(t.len() - trailing_whitespace(t))
}

proof fn lemma_leading_whitespace_bound(s: Seq<char>)
    ensures
        leading_whitespace(s) <= s.len(),
    decreases s.len(),
{
    if s.len() > 0 && is_unicode_whitespace(s[0]) {
        lemma_leading_whitespace_bound(s.drop_first());
    }
}

proof fn lemma_trailing_whitespace_bound(s: Seq<char>)
    ensures
        trailing_whitespace(s) <= s.len(),
    decreases s.len(),
{
    if s.len() > 0 && is_unicode_whitespace(s.last()) {
        lemma_trailing_whitespace_bound(s.drop_last());
    }
}

/// Index of the first character of `cs` that is not whitespace, or `cs.len()`.
fn skip_leading_whitespace(cs: &[char]) -> (i: usize)
    ensures
        i == leading_whitespace(cs@),
        i <= cs.len(),
{
    proof {
        lemma_leading_whitespace_bound(cs@);
    }
    assert(cs@.skip(0) == cs@);
    let mut i: usize = 0;
    while i < cs.len() && is_whitespace(cs[i])
        invariant
            i <= cs.len(),
            leading_whitespace(cs@) == i + leading_whitespace(cs@.skip(i as int)),
        decreases cs.len() - i,
    {
        assert(cs@.skip(i as int).drop_first() == cs@.skip(i + 1));
        i += 1;
    }
    proof {
        if i < cs.len() {
            assert(cs@.skip(i as int)[0] == cs@[i as int]);
        }
    }
    i
}

/// Index just past the last character of `cs[from..]` that is not whitespace, or `from`.
fn skip_trailing_whitespace(cs: &[char], from: usize) -> (j: usize)
    requires
        from <= cs.len(),
    ensures
        from <= j <= cs.len(),
        cs.len() - j == trailing_whitespace(cs@.skip(from as int)),
{
    let ghost t = cs@.skip(from as int);
    let mut j: usize = cs.len();
    assert(t.take(cs.len() - from) == t);
    while j > from && is_whitespace(cs[j - 1])
        invariant
            from <= j <= cs.len(),
            t == cs@.skip(from as int),
            trailing_whitespace(t) == (cs.len() - j) + trailing_whitespace(
                t.take(j - from),
            ),
        decreases j,
    {
        assert(t.take(j - from).drop_last() == t.take(j - 1 - from));
        j -= 1;
    }
    proof {
        if j > from {
            assert(t.take(j - from).last() == cs@[j - 1]);
        }
    }
    j
}

/// The characters of `s` without leading and trailing Unicode whitespace.
pub fn trim_chars(s: &str) -> (out: Vec<char>)
    ensures
        out@ == trim(s@),
{
    let cs = chars_of(s);
    let a = skip_leading_whitespace(cs.as_slice());
    let b = skip_trailing_whitespace(cs.as_slice(), a);
    let mut out: Vec<char> = Vec::new();
    let mut k: usize = a;
    while k < b
        invariant
            a <= k <= b <= cs.len(),
            out@ == cs@.subrange(a as int, k as int),
        decreases b - k,
    {
        out.push(cs[k]);
        assert(cs@.subrange(a as int, k + 1) == cs@.subrange(a as int, k as int).push(cs@[k as int]));
        k += 1;
    }
    proof {
        let t = cs@.skip(a as int);
        assert(t.take(t.len() - trailing_whitespace(t)) == cs@.subrange(a as int, b as int));
    }
    out
}

// ---------------------------------------------------------------------------
// Decimal numbers
// ---------------------------------------------------------------------------

/// Whether `c` is one of the ASCII digits `'0'..='9'`.
pub open spec fn is_ascii_digit(c: char) -> bool {
    '0' <= c <= '9'
}

/// The value of an ASCII digit.
pub open spec fn digit_value(c: char) -> nat {
    (c as u32 - '0' as u32) as nat
}

/// Whether every character of `s` is an ASCII digit.
pub open spec fn all_ascii_digits(s: Seq<char>) -> bool {
    forall|i: int| 0 <= i < s.len() ==> is_ascii_digit(#[trigger] s[i])
}

/// The number that a string of ASCII digits writes in base ten.
pub open spec fn decimal_value(s: Seq<char>) -> nat
    decreases s.len(),
{
    if s.len() == 0 {
        0
    } else {
        decimal_value(s.drop_last()) * 10 + digit_value(s.last())
    }
}

/// The ASCII digit for a number below ten.
pub open spec fn digit_char(d: nat) -> char {
    ((d + '0' as u32) as u32) as char
}

/// The shortest base-ten text of `n`, without sign or leading zeros.
pub open spec fn decimal_text(n: nat) -> Seq<char>
    decreases n,
{
    if n < 10 {
        seq![digit_char(n)]
    } else {
        decimal_text(n / 10).push(digit_char(n % 10))
    }
}

/// What `u64::from_str` returns: an optional `+`, then one or more ASCII digits whose
/// value fits in a `u64`.
pub open spec fn parse_u64_spec(s: Seq<char>) -> Option<u64> {
    let digits = if s.len() > 0 && s[0] == '+' {
        s.drop_first()
    } else {
        s
    };
    if digits.len() > 0 && all_ascii_digits(digits) && decimal_value(digits) <= u64::MAX {
        Some(decimal_value(digits) as u64)
    } else {
        None
    }
}

/// What `i64::from_str` returns: an optional `+` or `-`, then one or more ASCII digits
/// whose signed value fits in an `i64`.
pub open spec fn parse_i64_spec(s: Seq<char>) -> Option<i64> {
    if s.len() > 0 && s[0] == '-' {
        let digits = s.drop_first();
        if digits.len() > 0 && all_ascii_digits(digits) && decimal_value(digits) <= 0x8000_0000_0000_0000 {
            Some((0 - decimal_value(digits)) as i64)
        } else {
            None
        }
    } else {
        let digits = if s.len() > 0 && s[0] == '+' {
            s.drop_first()
        } else {
            s
        };
        if digits.len() > 0 && all_ascii_digits(digits) && decimal_value(digits) <= i64::MAX {
            Some(decimal_value(digits) as i64)
        } else {
            None
        }
    }
}

/// The text that `i64`'s `Display` writes: a `-` for negative numbers, then the digits.
pub open spec fn signed_decimal_text(n: int) -> Seq<char> {
    if n < 0 {
        seq!['-'] + decimal_text((0 - n) as nat)
    } else {
        decimal_text(n as nat)
    }
}

/// Decimal text read back gives the number.
pub proof fn lemma_decimal_text(n: nat)
    ensures
        decimal_text(n).len() > 0,
        all_ascii_digits(decimal_text(n)),
        decimal_value(decimal_text(n)) == n,
        decimal_text(n)[0] != '+',
        decimal_text(n)[0] != '-',
    decreases n,
{
    let c = digit_char(n % 10);
    assert(c as u32 == (n % 10) + 48);
    assert(digit_value(c) == n % 10);
    if n >= 10 {
        lemma_decimal_text(n / 10);
        let t = decimal_text(n / 10);
        assert(decimal_text(n).drop_last() == t);
        assert(decimal_text(n).last() == c);
        assert(decimal_text(n)[0] == t[0]);
        assert(decimal_value(decimal_text(n)) == decimal_value(t) * 10 + digit_value(c));
        assert((n / 10) * 10 + n % 10 == n);
    } else {
        assert(decimal_text(n).drop_last() == Seq::<char>::empty());
        assert(decimal_text(n).last() == c);
        assert(decimal_value(decimal_text(n)) == decimal_value(Seq::<char>::empty()) * 10
            + digit_value(c));
    }
}

/// Every `u64` written in decimal parses back to itself.
pub proof fn lemma_parse_u64_decimal_text(n: u64)
    ensures
        parse_u64_spec(decimal_text(n as nat)) == Some(n),
{
    lemma_decimal_text(n as nat);
}

/// Every `i64` written in decimal parses back to itself.
pub proof fn lemma_parse_i64_signed_text(n: i64)
    ensures
        parse_i64_spec(signed_decimal_text(n as int)) == Some(n),
{
    if n < 0 {
        lemma_decimal_text((0 - n) as nat);
        assert((seq!['-'] + decimal_text((0 - n) as nat)).drop_first() == decimal_text(
            (0 - n) as nat,
        ));
    } else {
        lemma_decimal_text(n as nat);
    }
}

/// Writes the decimal digits of `n` at the end of `out`.
pub fn write_decimal(out: &mut String, n: u64)
    ensures
        final(out)@ == old(out)@ + decimal_text(n as nat),
    decreases n,
{
    if n >= 10 {
        write_decimal(out, n / 10);
    }
    let d = (n % 10) as u8;
    let c = (d + 48) as char;
    push_char(out, c);
    proof {
        assert(c == digit_char((n % 10) as nat));
        if n >= 10 {
            assert(decimal_text(n as nat) == decimal_text((n / 10) as nat).push(c));
        } else {
            assert(decimal_text(n as nat) == seq![c]);
        }
    }
}

/// Writes `n` as `i64`'s `Display` does: a `-` for negative numbers, then the digits.
pub fn write_signed_decimal(out: &mut String, n: i64)
    ensures
        final(out)@ == old(out)@ + signed_decimal_text(n as int),
{
    if n < 0 {
        push_char(out, '-');
        let magnitude: u64 = if n == i64::MIN {
            0x8000_0000_0000_0000u64
        } else {
            (-n) as u64
        };
        write_decimal(out, magnitude);
        assert(old(out)@.push('-') + decimal_text(magnitude as nat) == old(out)@ + (seq!['-']
            + decimal_text(magnitude as nat)));
    } else {
        write_decimal(out, n as u64);
    }
}

/// Reads the value of a non-empty run of ASCII digits, or `None` when it exceeds `limit`.
fn digits_value_up_to(cs: &[char], from: usize, limit: u64) -> (r: Option<u64>)
    requires
        from <= cs.len(),
        all_ascii_digits(cs@.skip(from as int)),
    ensures
        match r {
            Some(v) => v == decimal_value(cs@.skip(from as int)) && v <= limit,
            None => decimal_value(cs@.skip(from as int)) > limit,
        },
{
    let ghost d = cs@.skip(from as int);
    let mut acc: u64 = 0;
    let mut i: usize = from;
    while i < cs.len()
        invariant
            from <= i <= cs.len(),
            d == cs@.skip(from as int),
            all_ascii_digits(d),
            acc == decimal_value(d.take(i - from)),
            acc <= limit,
        decreases cs.len() - i,
    {
        let ghost k = i - from;
        assert(d[k] == cs@[i as int]);
        let digit = (cs[i] as u32 - 48) as u64;
        assert(d.take(k + 1).drop_last() == d.take(k));
        assert(decimal_value(d.take(k + 1)) == acc * 10 + digit);
        if digit > limit || acc > (limit - digit) / 10 {
            proof {
                lemma_decimal_value_prefix_monotone(d, k + 1);
            }
            return None;
        }
        acc = acc * 10 + digit;
        i += 1;
    }
    assert(d.take(i - from) == d);
    Some(acc)
}

/// A longer run of digits has at least the value of its prefix.
proof fn lemma_decimal_value_prefix_monotone(d: Seq<char>, k: int)
    requires
        0 <= k <= d.len(),
        all_ascii_digits(d),
    ensures
        decimal_value(d.take(k)) <= decimal_value(d),
    decreases d.len() - k,
{
    if k < d.len() {
        lemma_decimal_value_prefix_monotone(d, k + 1);
        assert(d.take(k + 1).drop_last() == d.take(k));
    } else {
        assert(d.take(k) == d);
    }
}

/// Whether every character of `cs[from..]` is an ASCII digit.
fn digits_only(cs: &[char], from: usize) -> (r: bool)
    requires
        from <= cs.len(),
    ensures
        r == all_ascii_digits(cs@.skip(from as int)),
{
    let mut i: usize = from;
    while i < cs.len()
        invariant
            from <= i <= cs.len(),
            forall|j: int| from <= j < i ==> is_ascii_digit(#[trigger] cs@[j]),
        decreases cs.len() - i,
    {
        if !('0' <= cs[i] && cs[i] <= '9') {
            assert(cs@.skip(from as int)[i - from] == cs@[i as int]);
            return false;
        }
        i += 1;
    }
    assert forall|j: int| 0 <= j < cs@.skip(from as int).len() implies is_ascii_digit(
        #[trigger] cs@.skip(from as int)[j],
    ) by {
        assert(cs@.skip(from as int)[j] == cs@[from + j]);
    }
    true
}

/// Parses an unsigned decimal number as `u64::from_str` does.
pub fn parse_u64(cs: &[char]) -> (r: Option<u64>)
    ensures
        r == parse_u64_spec(cs@),
{
    let from: usize = if cs.len() > 0 && cs[0] == '+' {
        1
    } else {
        0
    };
    assert(from == 1 ==> cs@.skip(1) == cs@.drop_first());
    assert(cs@.skip(0) == cs@);
    if from == cs.len() || !digits_only(cs, from) {
        return None;
    }
    digits_value_up_to(cs, from, u64::MAX)
}

/// Parses a signed decimal number as `i64::from_str` does.
pub fn parse_i64(cs: &[char]) -> (r: Option<i64>)
    ensures
        r == parse_i64_spec(cs@),
{
    assert(cs@.skip(0) == cs@);
    assert(cs.len() > 0 ==> cs@.skip(1) == cs@.drop_first());
    if cs.len() > 0 && cs[0] == '-' {
        if cs.len() == 1 || !digits_only(cs, 1) {
            return None;
        }
        match digits_value_up_to(cs, 1, 0x8000_0000_0000_0000u64) {
            Some(v) => {
                if v == 0x8000_0000_0000_0000u64 {
                    Some(i64::MIN)
                } else {
                    Some(-(v as i64))
                }
            },
            None => None,
        }
    } else {
        let from: usize = if cs.len() > 0 && cs[0] == '+' {
            1
        } else {
            0
        };
        if from == cs.len() || !digits_only(cs, from) {
            return None;
        }
        match digits_value_up_to(cs, from, i64::MAX as u64) {
            Some(v) => Some(v as i64),
            None => None,
        }
    }
}

} // verus!
