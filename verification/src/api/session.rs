//! Sessions: the identifier a signed cookie carries, with the time it expires.

use vstd::prelude::*;

use crate::datetime::{later_than, representable_timestamp, utc_from_unix_timestamp, DateTime};
use crate::text::{
    append_chars, decimal_text, find_char, index_of_from, is_ascii_digit, is_unicode_whitespace,
    lemma_decimal_text, lemma_parse_i64_signed_text, leading_whitespace, parse_i64, parse_i64_spec,
    push_char, signed_decimal_text, slice_from, slice_to, string_from_chars, trailing_whitespace,
    trim, trim_chars, write_signed_decimal,
};

verus! {

/// The name of the session cookie.
pub const COOKIE_NAME: &'static str = "nrp_session";

/// How long a session lasts, in seconds (twelve hours).
pub const COOKIE_MAX_AGE_SECONDS: i64 = 43200;

/// The identifier of a session.
#[derive(Debug, Clone, PartialEq, Eq)]
pub struct SessionId(String);

impl SessionId {
    /// The identifier's characters.
    pub closed spec fn id(&self) -> Seq<char> {
        self.0@
    }

    /// The identifier.
    pub fn as_str(&self) -> (r: &str)
        ensures
            r@ == self.id(),
    {
        self.0.as_str()
    }
}

/// The value of a session cookie: the identifier, `:`, and the Unix time at which it
/// expires.
pub open spec fn session_cookie_text(session_id: Seq<char>, expires_at: i64) -> Seq<char> {
    session_id + ":"@ + signed_decimal_text(expires_at as int)
}

/// The value of a session cookie, as `session_cookie_text` states it.
pub fn create_session_cookie_value(session_id: &str, expires_at: i64) -> (r: String)
    ensures
        r@ == session_cookie_text(session_id@, expires_at),
{
    let mut out = session_id.to_owned();
    append_chars(&mut out, ":");
    write_signed_decimal(&mut out, expires_at);
    out
}

/// The session a cookie value names at time `now`: the value, trimmed, is split at its
/// first `:` into an identifier and a Unix timestamp; the identifier must not be empty,
/// the timestamp must be an `i64` that `time` can hold, and it must not lie before
/// `now`.
pub open spec fn session_at(value: Seq<char>, now: DateTime) -> Option<Seq<char>> {
    let t = trim(value);
    match index_of_from(t, ':', 0) {
        None => None,
        Some(k) => {
            let id = t.take(k as int);
            match parse_i64_spec(t.skip(k as int + 1)) {
                None => None,
                Some(ts) => if !representable_timestamp(ts as int) || id.len() == 0
                    || later_than(now, DateTime { unix_seconds: ts, nanosecond: 0, offset_seconds: 0 }) {
                    None
                } else {
                    Some(id)
                },
            }
        },
    }
}

/// The session a cookie value names at time `now`, as `session_at` states it.
pub fn parse_session_cookie_at(value: &str, now: DateTime) -> (r: Option<SessionId>)
    ensures
        match r {
            Some(s) => session_at(value@, now) == Some(s.id()),
            None => session_at(value@, now) is None,
        },
{
    let t = trim_chars(value);
    let k = match find_char(&t, ':', 0) {
        Some(k) => k,
        None => return None,
    };
    let id = slice_to(&t, k);
    let rest = slice_from(&t, k + 1);
    let expires_at = match parse_i64(rest.as_slice()) {
        Some(ts) => ts,
        None => return None,
    };
    if utc_from_unix_timestamp(expires_at).is_err() {
        return None;
    }
    let expires = DateTime::from_unix_seconds(expires_at);
    if id.len() == 0 || now.is_later_than(&expires) {
        return None;
    }
    Some(SessionId(string_from_chars(id.as_slice())))
}

// ---------------------------------------------------------------------------
// New session identifiers
// ---------------------------------------------------------------------------

/// A random number from the thread's generator, through `rand::random::<u64>`; any
/// value may come back.
#[verifier::external_body]
fn random_u64() -> (r: u64) {
    rand::random::<u64>()
}

/// The lowercase hexadecimal digit of `d` (below 16).
pub open spec fn hex_digit(d: nat) -> char {
    if d < 10 {
        (d + 48) as char
    } else {
        (d + 87) as char
    }
}

/// The last `width` hexadecimal digits of `n`, zero-padded, most significant first.
pub open spec fn hex_text(n: nat, width: nat) -> Seq<char>
    decreases width,
{
    if width == 0 {
        Seq::empty()
    } else {
        hex_text(n / 16, (width - 1) as nat).push(hex_digit(n % 16))
    }
}

proof fn lemma_hex_text_len(n: nat, width: nat)
    ensures
        hex_text(n, width).len() == width,
    decreases width,
{
    if width > 0 {
        lemma_hex_text_len(n / 16, (width - 1) as nat);
    }
}

/// Writes the last `width` hexadecimal digits of `n`, as `format!("{:016x}", n)` does for
/// a width of 16.
fn write_hex(out: &mut String, n: u64, width: u32)
    ensures
        final(out)@ == old(out)@ + hex_text(n as nat, width as nat),
    decreases width,
{
    if width > 0 {
        write_hex(out, n / 16, width - 1);
        let d = (n % 16) as u8;
        let c = if d < 10 {
            (d + 48) as char
        } else {
            (d + 87) as char
        };
        push_char(out, c);
        assert(c == hex_digit((n % 16) as nat));
    }
}

/// Whether `s` is the 16-digit hexadecimal text of four numbers in turn.
pub open spec fn is_session_id_text(s: Seq<char>) -> bool {
    exists|a: u64, b: u64, c: u64, d: u64|
        s == hex_text(a as nat, 16) + hex_text(b as nat, 16) + hex_text(c as nat, 16) + hex_text(
            d as nat,
            16,
        )
}

/// The session identifier text of four numbers: each as 16 lowercase hexadecimal digits,
/// in turn.
pub fn session_id_text(a: u64, b: u64, c: u64, d: u64) -> (r: String)
    ensures
        r@ == hex_text(a as nat, 16) + hex_text(b as nat, 16) + hex_text(c as nat, 16) + hex_text(
            d as nat,
            16,
        ),
        r@.len() == 64,
{
    let mut out = String::new();
    write_hex(&mut out, a, 16);
    write_hex(&mut out, b, 16);
    write_hex(&mut out, c, 16);
    write_hex(&mut out, d, 16);
    proof {
        lemma_hex_text_len(a as nat, 16);
        lemma_hex_text_len(b as nat, 16);
        lemma_hex_text_len(c as nat, 16);
        lemma_hex_text_len(d as nat, 16);
    }
    out
}

/// A new session identifier: four random numbers, each as 16 lowercase hexadecimal
/// digits.
pub fn generate_session_id() -> (r: String)
    ensures
        is_session_id_text(r@),
        r@.len() == 64,
{
    let a = random_u64();
    let b = random_u64();
    let c = random_u64();
    let d = random_u64();
    session_id_text(a, b, c, d)
}

/// The first `:` of `prefix + ":" + rest` follows `prefix` when `prefix` holds none.
proof fn lemma_first_colon(prefix: Seq<char>, rest: Seq<char>, i: nat)
    requires
        i <= prefix.len(),
        !prefix.contains(':'),
    ensures
        index_of_from(prefix + seq![':'] + rest, ':', i) == Some(prefix.len()),
    decreases prefix.len() - i,
{
    let v = prefix + seq![':'] + rest;
    if i < prefix.len() {
        assert(v[i as int] == prefix[i as int]);
        if v[i as int] == ':' {
            assert(prefix.contains(':'));
        }
        lemma_first_colon(prefix, rest, i + 1);
    } else {
        assert(v[i as int] == ':');
    }
}

/// The text of an `i64` ends with a digit.
proof fn lemma_signed_text_ends_with_digit(n: i64)
    ensures
        signed_decimal_text(n as int).len() > 0,
        is_ascii_digit(signed_decimal_text(n as int).last()),
{
    if n < 0 {
        lemma_decimal_text((0 - n) as nat);
        let d = decimal_text((0 - n) as nat);
        assert((seq!['-'] + d).last() == d[d.len() - 1]);
    } else {
        lemma_decimal_text(n as nat);
        let d = decimal_text(n as nat);
        assert(d.last() == d[d.len() - 1]);
    }
}

/// The cookie value of a session names that session until the time it expires, and
/// nothing after: for an identifier that is not empty, holds no `:` and does not start
/// with whitespace, an expiry that `time` can hold, and any time `now`.
pub proof fn lemma_session_cookie_roundtrip(session_id: Seq<char>, expires_at: i64, now: DateTime)
    requires
        session_id.len() > 0,
        !session_id.contains(':'),
        !is_unicode_whitespace(session_id[0]),
        representable_timestamp(expires_at as int),
    ensures
        session_at(session_cookie_text(session_id, expires_at), now) == if later_than(
            now,
            DateTime { unix_seconds: expires_at, nanosecond: 0, offset_seconds: 0 },
        ) {
            None
        } else {
            Some(session_id)
        },
{
    reveal_strlit(":");
    let digits = signed_decimal_text(expires_at as int);
    let v = session_cookie_text(session_id, expires_at);
    assert(v == session_id + seq![':'] + digits);
    lemma_signed_text_ends_with_digit(expires_at);
    assert(v.last() == digits.last());
    assert(v[0] == session_id[0]);
    assert(leading_whitespace(v) == 0);
    assert(trailing_whitespace(v) == 0);
    assert(v.skip(0) == v);
    assert(trim(v) == v);
    lemma_first_colon(session_id, digits, 0);
    assert(v.take(session_id.len() as int) == session_id);
    assert(v.skip(session_id.len() as int + 1) == digits);
    lemma_parse_i64_signed_text(expires_at);
}

/// The characters of hexadecimal text are ASCII digits and `a` to `f`.
proof fn lemma_hex_text_chars(n: nat, width: nat)
    ensures
        forall|i: int|
            0 <= i < hex_text(n, width).len() ==> {
                let c = #[trigger] hex_text(n, width)[i];
                ('0' <= c <= '9') || ('a' <= c <= 'f')
            },
    decreases width,
{
    lemma_hex_text_len(n, width);
    if width > 0 {
        lemma_hex_text_chars(n / 16, (width - 1) as nat);
        lemma_hex_text_len(n / 16, (width - 1) as nat);
        let d = n % 16;
        assert(d < 16);
        let t = hex_text(n / 16, (width - 1) as nat);
        assert forall|i: int| 0 <= i < hex_text(n, width).len() implies {
            let c = #[trigger] hex_text(n, width)[i];
            ('0' <= c <= '9') || ('a' <= c <= 'f')
        } by {
            if i < t.len() {
                assert(hex_text(n, width)[i] == t[i]);
            } else {
                assert(hex_text(n, width)[i] == hex_digit(d));
            }
        }
    }
}

/// A generated session identifier is 64 hexadecimal digits, so it is not empty, holds no
/// `:` and does not start with whitespace: its cookie value names it until it expires.
pub proof fn lemma_session_id_text_shape(s: Seq<char>)
    requires
        is_session_id_text(s),
    ensures
        s.len() == 64,
        forall|i: int| 0 <= i < s.len() ==> {
            let c = #[trigger] s[i];
            ('0' <= c <= '9') || ('a' <= c <= 'f')
        },
        !s.contains(':'),
        !is_unicode_whitespace(s[0]),
{
    let (a, b, c, d) = choose|a: u64, b: u64, c: u64, d: u64|
        s == hex_text(a as nat, 16) + hex_text(b as nat, 16) + hex_text(c as nat, 16) + hex_text(
            d as nat,
            16,
        );
    let ha = hex_text(a as nat, 16);
    let hb = hex_text(b as nat, 16);
    let hc = hex_text(c as nat, 16);
    let hd = hex_text(d as nat, 16);
    lemma_hex_text_len(a as nat, 16);
    lemma_hex_text_len(b as nat, 16);
    lemma_hex_text_len(c as nat, 16);
    lemma_hex_text_len(d as nat, 16);
    lemma_hex_text_chars(a as nat, 16);
    lemma_hex_text_chars(b as nat, 16);
    lemma_hex_text_chars(c as nat, 16);
    lemma_hex_text_chars(d as nat, 16);
    assert forall|i: int| 0 <= i < s.len() implies {
        let x = #[trigger] s[i];
        ('0' <= x <= '9') || ('a' <= x <= 'f')
    } by {
        if i < 16 {
            assert(s[i] == ha[i]);
        } else if i < 32 {
            assert(s[i] == hb[i - 16]);
        } else if i < 48 {
            assert(s[i] == hc[i - 32]);
        } else {
            assert(s[i] == hd[i - 48]);
        }
    }
    if s.contains(':') {
        let k = choose|k: int| 0 <= k < s.len() && s[k] == ':';
        assert(('0' <= s[k] <= '9') || ('a' <= s[k] <= 'f'));
    }
    assert(('0' <= s[0] <= '9') || ('a' <= s[0] <= 'f'));
}

} // verus!
