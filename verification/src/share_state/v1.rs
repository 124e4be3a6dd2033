//! Version 1 of the share-state encoding: a binary record, compressed with Brotli,
//! written in URL-safe Base64 without padding, behind the version character `1`.

use vstd::prelude::*;
use vstd::utf8::{decode_utf8, encode_utf8, valid_utf8};
use base64::DecodeError as Base64Error;
use base64::Engine;
use std::io::Read;

use crate::share_state::{content_ids_view, ContentId, ContentIdView};
use wire::{
    escape_bytes, parse_bytes, parse_bytes_spec, parse_varint, parse_varint_spec, unzigzag,
    varint_bytes, write_bytes, write_varint, zigzag, WireError,
};

pub mod wire;

verus! {

/// The character that starts every version 1 encoding.
pub const VERSION: char = '1';

/// The buffer size handed to the Brotli decompressor.
pub const BROTLI_BUFFER_SIZE: usize = 4096;

/// The Brotli quality level used when compressing.
pub const BROTLI_QUALITY: i32 = 11;

/// The largest binary record that decoding accepts, in bytes.
pub const MAX_DECOMPRESSED_SIZE: usize = 65536;

/// The most content identifiers that a share state may hold.
pub const MAX_CONTENT_IDS: u64 = 100;

/// The earliest Unix timestamp that `time::OffsetDateTime` can hold (-9999-01-01).
pub const MIN_UNIX_TIMESTAMP: i64 = -377705116800;

/// The latest Unix timestamp that `time::OffsetDateTime` can hold (9999-12-31 23:59:59).
pub const MAX_UNIX_TIMESTAMP: i64 = 253402300799;

/// Whether a Unix timestamp lies in the range of `time::OffsetDateTime`.
pub open spec fn valid_timestamp(t: int) -> bool {
    MIN_UNIX_TIMESTAMP <= t <= MAX_UNIX_TIMESTAMP
}

/// Search conditions as version 1 stores them; times are Unix timestamps in seconds.
#[derive(Clone, Debug, PartialEq, Eq)]
pub struct SearchStateV1 {
    pub tag: String,
    pub uploaded_since: Option<i64>,
    pub uploaded_until: Option<i64>,
    pub view_min: Option<u64>,
    pub view_max: Option<u64>,
    pub result_count: u64,
}

/// A [`SearchStateV1`] seen as mathematical values.
pub struct SearchStateV1View {
    pub tag: Seq<char>,
    pub uploaded_since: Option<i64>,
    pub uploaded_until: Option<i64>,
    pub view_min: Option<u64>,
    pub view_max: Option<u64>,
    pub result_count: u64,
}

impl View for SearchStateV1 {
    type V = SearchStateV1View;

    open spec fn view(&self) -> SearchStateV1View {
        SearchStateV1View {
            tag: self.tag@,
            uploaded_since: self.uploaded_since,
            uploaded_until: self.uploaded_until,
            view_min: self.view_min,
            view_max: self.view_max,
            result_count: self.result_count,
        }
    }
}

/// A share state as version 1 stores it.
#[derive(Clone, Debug, PartialEq, Eq)]
pub struct ShareStateV1 {
    pub search: SearchStateV1,
    pub content_ids: Vec<ContentId>,
}

/// A [`ShareStateV1`] seen as mathematical values.
pub struct ShareStateV1View {
    pub search: SearchStateV1View,
    pub content_ids: Seq<ContentIdView>,
}

impl View for ShareStateV1 {
    type V = ShareStateV1View;

    open spec fn view(&self) -> ShareStateV1View {
        ShareStateV1View { search: self.search@, content_ids: content_ids_view(self.content_ids@) }
    }
}

/// Why encoding failed.
#[derive(Debug, Clone, Copy, PartialEq, Eq, Structural)]
pub enum EncodeError {
    /// The compressor reported an error.
    Compress,
    /// There are more than [`MAX_CONTENT_IDS`] content identifiers.
    TooManyContentIds,
}

impl EncodeError {
    /// The message that describes the error.
    pub fn message(&self) -> (r: &'static str)
        ensures
            r@ == match self {
                EncodeError::Compress => "共有データの圧縮に失敗しました"@,
                EncodeError::TooManyContentIds => "共有データのエンコードに失敗しました: contentIdsが多すぎます"@,
            },
    {
        match self {
            EncodeError::Compress => "共有データの圧縮に失敗しました",
            EncodeError::TooManyContentIds => "共有データのエンコードに失敗しました: contentIdsが多すぎます",
        }
    }
}

// ---------------------------------------------------------------------------
// The binary record
// ---------------------------------------------------------------------------

/// A string field: its UTF-8 bytes, escaped, then a zero terminator.
pub open spec fn string_field_bytes(s: Seq<char>) -> Seq<u8> {
    escape_bytes(encode_utf8(s)) + seq![0u8]
}

/// The flags byte: bit 0 for a view minimum, bit 1 for a view maximum, bit 2 for an
/// upload start and bit 3 for an upload end.
pub open spec fn flags_of(s: SearchStateV1View) -> u8 {
    ((if s.view_min is Some { 1int } else { 0 }) + (if s.view_max is Some { 2int } else { 0 }) + (
    if s.uploaded_since is Some { 4int } else { 0 }) + (if s.uploaded_until is Some { 8int } else { 0 }))
        as u8
}

/// An optional number: its varint when present, nothing otherwise.
pub open spec fn optional_varint_bytes(v: Option<u64>) -> Seq<u8> {
    match v {
        Some(x) => varint_bytes(x as nat),
        None => Seq::<u8>::empty(),
    }
}

/// An optional timestamp: the varint of its zigzag code when present, nothing otherwise.
pub open spec fn optional_timestamp_bytes(v: Option<i64>) -> Seq<u8> {
    match v {
        Some(t) => varint_bytes(zigzag(t as int) as nat),
        None => Seq::<u8>::empty(),
    }
}

/// The search conditions: tag, result count, flags, then the present bounds.
pub open spec fn search_state_bytes(s: SearchStateV1View) -> Seq<u8> {
    string_field_bytes(s.tag) + varint_bytes(s.result_count as nat) + seq![flags_of(s)]
        + optional_varint_bytes(s.view_min) + optional_varint_bytes(s.view_max)
        + optional_timestamp_bytes(s.uploaded_since) + optional_timestamp_bytes(s.uploaded_until)
}

/// The prefix table: each prefix as a string field, in table order.
pub open spec fn prefix_table_bytes(t: Seq<Seq<char>>) -> Seq<u8>
    decreases t.len(),
{
    if t.len() == 0 {
        Seq::<u8>::empty()
    } else {
        prefix_table_bytes(t.drop_last()) + string_field_bytes(t.last())
    }
}

/// The position of prefix `p` in the table `t`.
pub open spec fn prefix_code(t: Seq<Seq<char>>, p: Seq<char>) -> int {
    choose|k: int| 0 <= k < t.len() && t[k] == p
}

/// One content identifier: the varint of its prefix's position, then of its number.
pub open spec fn content_id_bytes(t: Seq<Seq<char>>, id: ContentIdView) -> Seq<u8> {
    varint_bytes(prefix_code(t, id.prefix) as nat) + varint_bytes(id.number as nat)
}

/// The content identifiers, in order.
pub open spec fn content_ids_bytes(t: Seq<Seq<char>>, ids: Seq<ContentIdView>) -> Seq<u8>
    decreases ids.len(),
{
    if ids.len() == 0 {
        Seq::<u8>::empty()
    } else {
        content_ids_bytes(t, ids.drop_last()) + content_id_bytes(t, ids.last())
    }
}

/// The binary record of a share state, with `t` as its prefix table. Without content
/// identifiers the record ends with a zero prefix count.
pub open spec fn encode_binary_spec(s: ShareStateV1View, t: Seq<Seq<char>>) -> Seq<u8> {
    search_state_bytes(s.search) + if s.content_ids.len() == 0 {
        seq![0u8]
    } else {
        seq![t.len() as u8] + prefix_table_bytes(t) + varint_bytes(s.content_ids.len())
            + content_ids_bytes(t, s.content_ids)
    }
}

/// How many content identifiers use prefix `p`.
pub open spec fn prefix_count(ids: Seq<ContentIdView>, p: Seq<char>) -> nat
    decreases ids.len(),
{
    if ids.len() == 0 {
        0
    } else {
        prefix_count(ids.drop_last(), p) + if ids.last().prefix == p {
            1nat
        } else {
            0nat
        }
    }
}

/// A prefix table for `ids`: each used prefix exactly once, most used first.
pub open spec fn valid_prefix_table(ids: Seq<ContentIdView>, t: Seq<Seq<char>>) -> bool {
    &&& t.len() <= ids.len()
    &&& forall|a: int, b: int| 0 <= a < b < t.len() ==> t[a] != t[b]
    &&& forall|i: int| 0 <= i < ids.len() ==> t.contains(#[trigger] ids[i].prefix)
    &&& forall|a: int| 0 <= a < t.len() ==> prefix_count(ids, #[trigger] t[a]) >= 1
    &&& forall|a: int, b: int|
        0 <= a < b < t.len() ==> prefix_count(ids, #[trigger] t[a]) >= prefix_count(
            ids,
            #[trigger] t[b],
        )
}

/// The views of a sequence of strings.
pub open spec fn strings_view(v: Seq<String>) -> Seq<Seq<char>> {
    v.map_values(|s: String| s@)
}

proof fn lemma_prefix_count_bound(ids: Seq<ContentIdView>, p: Seq<char>)
    ensures
        prefix_count(ids, p) <= ids.len(),
    decreases ids.len(),
{
    if ids.len() > 0 {
        lemma_prefix_count_bound(ids.drop_last(), p);
    }
}

/// The distinct prefixes of `ids` in order of first use, with how often each is used.
fn count_prefixes(ids: &Vec<ContentId>) -> (r: (Vec<String>, Vec<usize>))
    ensures
        r.0.len() == r.1.len(),
        r.0.len() <= ids.len(),
        forall|a: int, b: int| 0 <= a < b < r.0.len() ==> r.0@[a]@ != r.0@[b]@,
        forall|k: int|
            0 <= k < r.0.len() ==> r.1@[k] == prefix_count(content_ids_view(ids@), #[trigger] r.0@[k]@)
                && r.1@[k] >= 1,
        forall|i: int|
            0 <= i < ids.len() ==> exists|k: int|
                0 <= k < r.0.len() && #[trigger] r.0@[k]@ == (#[trigger] ids@[i]).prefix@,
{
    let ghost idsv = content_ids_view(ids@);
    let mut names: Vec<String> = Vec::new();
    let mut counts: Vec<usize> = Vec::new();
    let mut i: usize = 0;
    while i < ids.len()
        invariant
            i <= ids.len(),
            idsv == content_ids_view(ids@),
            names.len() == counts.len(),
            names.len() <= i,
            forall|a: int, b: int| 0 <= a < b < names.len() ==> names@[a]@ != names@[b]@,
            forall|k: int|
                0 <= k < names.len() ==> counts@[k] == prefix_count(
                    idsv.take(i as int),
                    #[trigger] names@[k]@,
                ) && counts@[k] >= 1,
            forall|j: int|
                0 <= j < i ==> exists|k: int|
                    0 <= k < names.len() && #[trigger] names@[k]@ == (#[trigger] ids@[j]).prefix@,
        decreases ids.len() - i,
    {
        let p = &ids[i].prefix;
        let mut k: usize = 0;
        while k < names.len() && !(names[k] == *p)
            invariant
                k <= names.len(),
                forall|j: int| 0 <= j < k ==> names@[j]@ != p@,
            decreases names.len() - k,
        {
            k += 1;
        }
        let ghost before = idsv.take(i as int);
        proof {
            assert(idsv.take(i + 1).drop_last() == before);
            assert(idsv.take(i + 1).last() == idsv[i as int]);
            assert(idsv[i as int].prefix == p@);
            assert forall|q: Seq<char>|
                #![auto]
                prefix_count(idsv.take(i + 1), q) == prefix_count(before, q) + if q == p@ {
                    1nat
                } else {
                    0nat
                } by {}
            lemma_prefix_count_bound(before, p@);
        }
        if k < names.len() {
            let c = counts[k];
            counts[k] = c + 1;
            assert forall|j: int| 0 <= j <= i implies exists|m: int|
                0 <= m < names.len() && #[trigger] names@[m]@ == (#[trigger] ids@[j]).prefix@ by {
                if j == i {
                    assert(names@[k as int]@ == ids@[j].prefix@);
                }
            }
        } else {
            let ghost names_before = names@;
            assert forall|j: int| 0 <= j < i implies exists|m: int|
                0 <= m < names_before.len() && #[trigger] names_before[m]@ == (
                #[trigger] ids@[j]).prefix@ by {}
            names.push(p.clone());
            counts.push(1);
            assert forall|j: int| 0 <= j <= i implies exists|m: int|
                0 <= m < names.len() && #[trigger] names@[m]@ == (#[trigger] ids@[j]).prefix@ by {
                if j == i {
                    assert(names@[names.len() - 1]@ == ids@[j].prefix@);
                } else {
                    let m = choose|m: int|
                        0 <= m < names_before.len() && #[trigger] names_before[m]@
                            == ids@[j].prefix@;
                    assert(names@[m] == names_before[m]);
                }
            }
            proof {
                assert(prefix_count(before, p@) == 0) by {
                    lemma_prefix_count_positive_used(before, p@);
                    if prefix_count(before, p@) > 0 {
                        let j = choose|j: int| 0 <= j < before.len() && before[j].prefix == p@;
                        assert(before[j] == idsv[j]);
                        assert(idsv[j].prefix == ids@[j].prefix@);
                        let m = choose|m: int|
                            0 <= m < names_before.len() && #[trigger] names_before[m]@
                                == ids@[j].prefix@;
                        assert(names_before[m]@ == p@);
                    }
                }
            }
        }
        i += 1;
    }
    assert(idsv.take(ids.len() as int) == idsv);
    (names, counts)
}

/// The names ordered by count, most used first; names with equal counts keep their
/// order. The ghost sequence gives, for each entry, the position of its name.
fn order_by_count(names: &Vec<String>, counts: &Vec<usize>) -> (r: (Vec<String>, Ghost<Seq<int>>))
    requires
        names.len() == counts.len(),
    ensures
        r.0.len() == r.1@.len(),
        r.0.len() <= names.len(),
        forall|j: int|
            0 <= j < r.0.len() ==> 0 <= #[trigger] r.1@[j] < names.len() && r.0@[j]@
                == names@[r.1@[j]]@,
        forall|a: int, b: int| 0 <= a < b < r.0.len() ==> r.1@[a] != r.1@[b],
        forall|a: int, b: int|
            0 <= a < b < r.0.len() ==> counts@[#[trigger] r.1@[a]] >= counts@[#[trigger] r.1@[b]],
        forall|k: int|
            0 <= k < names.len() && counts@[k] >= 1 ==> exists|j: int|
                0 <= j < r.0.len() && #[trigger] r.1@[j] == k,
{
    let n = names.len();
    let mut max_count: usize = 0;
    let mut k: usize = 0;
    while k < n
        invariant
            k <= n,
            n == counts.len(),
            forall|j: int| 0 <= j < k ==> counts@[j] <= max_count,
        decreases n - k,
    {
        if counts[k] > max_count {
            max_count = counts[k];
        }
        k += 1;
    }
    let mut table: Vec<String> = Vec::new();
    let ghost mut idx: Seq<int> = Seq::empty();
    let mut c: usize = max_count;
    while c > 0
        invariant
            n == names.len(),
            n == counts.len(),
            c <= max_count,
            forall|j: int| 0 <= j < n ==> counts@[j] <= max_count,
            table.len() == idx.len(),
            forall|j: int|
                0 <= j < table.len() ==> 0 <= #[trigger] idx[j] < n && table@[j]@
                    == names@[idx[j]]@ && counts@[idx[j]] > c,
            forall|a: int, b: int| 0 <= a < b < table.len() ==> idx[a] != idx[b],
            forall|a: int, b: int|
                0 <= a < b < table.len() ==> counts@[#[trigger] idx[a]] >= counts@[#[trigger] idx[b]],
            forall|m: int|
                0 <= m < n && counts@[m] > c ==> exists|j: int|
                    0 <= j < table.len() && #[trigger] idx[j] == m,
        decreases c,
    {
        let ghost start = table.len();
        let mut m: usize = 0;
        while m < n
            invariant
                n == names.len(),
                n == counts.len(),
                0 < c <= max_count,
                m <= n,
                start <= table.len(),
                table.len() == idx.len(),
                forall|j: int|
                    0 <= j < table.len() ==> 0 <= #[trigger] idx[j] < n && table@[j]@
                        == names@[idx[j]]@ && counts@[idx[j]] >= c,
                forall|j: int| 0 <= j < start ==> counts@[#[trigger] idx[j]] > c,
                forall|j: int|
                    start <= j < table.len() ==> counts@[#[trigger] idx[j]] == c && idx[j] < m,
                forall|a: int, b: int| 0 <= a < b < table.len() ==> idx[a] != idx[b],
                forall|a: int, b: int|
                    0 <= a < b < table.len() ==> counts@[#[trigger] idx[a]] >= counts@[
                        #[trigger] idx[b]],
                forall|q: int|
                    (0 <= q < n && counts@[q] > c) || (0 <= q < m && counts@[q] == c) ==> exists|
                        j: int,
                    |
                        0 <= j < table.len() && #[trigger] idx[j] == q,
            decreases n - m,
        {
            if counts[m] == c {
                let ghost before = idx;
                table.push(names[m].clone());
                proof {
                    idx = idx.push(m as int);
                    assert forall|q: int|
                        (0 <= q < n && counts@[q] > c) || (0 <= q < m + 1 && counts@[q] == c)
                            implies exists|j: int|
                        0 <= j < table.len() && #[trigger] idx[j] == q by {
                        if q == m {
                            assert(idx[before.len() as int] == q);
                        } else {
                            let j = choose|j: int| 0 <= j < before.len() && #[trigger] before[j] == q;
                            assert(idx[j] == before[j]);
                        }
                    }
                }
            }
            m += 1;
        }
        c -= 1;
    }
    proof {
        assert forall|a: int, b: int| 0 <= a < b < idx.len() implies idx[a] != idx[b] by {}
        assert(idx.no_duplicates());
        idx.unique_seq_to_set();
        vstd::set_lib::lemma_int_range(0, n as int);
        assert(idx.to_set().subset_of(vstd::set_lib::set_int_range(0, n as int)));
        vstd::set_lib::lemma_len_subset(idx.to_set(), vstd::set_lib::set_int_range(0, n as int));
    }
    (table, Ghost(idx))
}

/// A prefix table for `ids`: every prefix that `ids` uses, once, most used first.
fn prefix_table(ids: &Vec<ContentId>) -> (t: Vec<String>)
    ensures
        valid_prefix_table(content_ids_view(ids@), strings_view(t@)),
{
    let ghost idsv = content_ids_view(ids@);
    let (names, counts) = count_prefixes(ids);
    let (table, Ghost(idx)) = order_by_count(&names, &counts);
    let ghost tv = strings_view(table@);
    proof {
        assert forall|a: int, b: int| 0 <= a < b < tv.len() implies tv[a] != tv[b] by {
            assert(tv[a] == names@[idx[a]]@);
            assert(tv[b] == names@[idx[b]]@);
        }
        assert forall|i: int| 0 <= i < idsv.len() implies tv.contains(#[trigger] idsv[i].prefix) by {
            assert(idsv[i].prefix == ids@[i].prefix@);
            let k = choose|k: int| 0 <= k < names.len() && #[trigger] names@[k]@ == ids@[i].prefix@;
            assert(counts@[k] >= 1);
            let j = choose|j: int| 0 <= j < table.len() && #[trigger] idx[j] == k;
            assert(tv[j] == idsv[i].prefix);
        }
        assert forall|a: int| 0 <= a < tv.len() implies prefix_count(idsv, #[trigger] tv[a]) >= 1 by {
            assert(tv[a] == names@[idx[a]]@);
        }
        assert forall|a: int, b: int|
            0 <= a < b < tv.len() implies prefix_count(idsv, #[trigger] tv[a]) >= prefix_count(
            idsv,
            #[trigger] tv[b],
        ) by {
            assert(tv[a] == names@[idx[a]]@);
            assert(tv[b] == names@[idx[b]]@);
        }
    }
    table
}

/// The position of `p` in a table that holds it once.
fn find_prefix(table: &Vec<String>, p: &String) -> (k: usize)
    requires
        strings_view(table@).contains(p@),
        forall|a: int, b: int| 0 <= a < b < table.len() ==> table@[a]@ != table@[b]@,
    ensures
        k < table.len(),
        table@[k as int]@ == p@,
        k == prefix_code(strings_view(table@), p@),
{
    let ghost tv = strings_view(table@);
    let mut k: usize = 0;
    while k < table.len() && !(table[k] == *p)
        invariant
            k <= table.len(),
            tv == strings_view(table@),
            tv.contains(p@),
            forall|j: int| 0 <= j < k ==> table@[j]@ != p@,
        decreases table.len() - k,
    {
        k += 1;
    }
    proof {
        if k == table.len() {
            let j = choose|j: int| 0 <= j < tv.len() && tv[j] == p@;
            assert(table@[j]@ == p@);
        }
        let c = prefix_code(tv, p@);
        assert(tv[k as int] == p@);
        assert(0 <= c < tv.len() && tv[c] == p@);
        assert(table@[c]@ == p@);
    }
    k
}

/// Appends a string field: the UTF-8 bytes of `s`, escaped, then a zero terminator.
fn write_string(output: &mut Vec<u8>, s: &String)
    ensures
        final(output)@ == old(output)@ + string_field_bytes(s@),
{
    let bytes = s.as_str().as_bytes();
    write_bytes(output, bytes);
    assert(old(output)@ + escape_bytes(bytes@) + seq![0u8] == old(output)@ + string_field_bytes(
        s@,
    ));
}

/// Appends an optional number: its varint when present.
fn write_optional_varint(output: &mut Vec<u8>, v: Option<u64>)
    ensures
        final(output)@ == old(output)@ + optional_varint_bytes(v),
{
    match v {
        Some(x) => write_varint(output, x),
        None => {
            assert(old(output)@ + Seq::<u8>::empty() == old(output)@);
        },
    }
}

/// Appends an optional timestamp: the varint of its zigzag code when present.
fn write_optional_timestamp(output: &mut Vec<u8>, v: Option<i64>)
    ensures
        final(output)@ == old(output)@ + optional_timestamp_bytes(v),
{
    match v {
        Some(t) => write_varint(output, wire::encode_signed(t)),
        None => {
            assert(old(output)@ + Seq::<u8>::empty() == old(output)@);
        },
    }
}

/// Appends the search conditions.
fn write_search_state(output: &mut Vec<u8>, s: &SearchStateV1)
    ensures
        final(output)@ == old(output)@ + search_state_bytes(s@),
{
    write_string(output, &s.tag);
    write_varint(output, s.result_count);
    let mut flags: u8 = 0;
    if s.view_min.is_some() {
        flags = flags + 1;
    }
    if s.view_max.is_some() {
        flags = flags + 2;
    }
    if s.uploaded_since.is_some() {
        flags = flags + 4;
    }
    if s.uploaded_until.is_some() {
        flags = flags + 8;
    }
    assert(flags == flags_of(s@));
    output.push(flags);
    write_optional_varint(output, s.view_min);
    write_optional_varint(output, s.view_max);
    write_optional_timestamp(output, s.uploaded_since);
    write_optional_timestamp(output, s.uploaded_until);
    assert(final(output)@ == old(output)@ + search_state_bytes(s@));
}

/// The binary record of a share state. Fails when there are more than
/// [`MAX_CONTENT_IDS`] content identifiers.
pub fn encode_binary(state: &ShareStateV1) -> (r: Result<Vec<u8>, EncodeError>)
    ensures
        match r {
            Ok(bytes) => state.content_ids.len() <= MAX_CONTENT_IDS && exists|t: Seq<Seq<char>>|
                valid_prefix_table(state@.content_ids, t) && bytes@ == encode_binary_spec(
                    state@,
                    t,
                ),
            Err(e) => state.content_ids.len() > MAX_CONTENT_IDS && e == EncodeError::TooManyContentIds,
        },
{
    let ghost sv = state@;
    let mut bytes: Vec<u8> = Vec::new();
    write_search_state(&mut bytes, &state.search);
    let ghost head = bytes@;
    let ids = &state.content_ids;
    if ids.len() == 0 {
        write_varint(&mut bytes, 0);
        proof {
            assert(varint_bytes(0) == seq![0u8]);
            let t = Seq::<Seq<char>>::empty();
            assert(valid_prefix_table(sv.content_ids, t));
            assert(bytes@ == encode_binary_spec(sv, t));
        }
        return Ok(bytes);
    }
    if ids.len() > 100 {
        return Err(EncodeError::TooManyContentIds);
    }
    let table = prefix_table(ids);
    let ghost tv = strings_view(table@);
    bytes.push(table.len() as u8);
    let ghost after_count = bytes@;
    let mut k: usize = 0;
    while k < table.len()
        invariant
            k <= table.len(),
            tv == strings_view(table@),
            bytes@ == after_count + prefix_table_bytes(tv.take(k as int)),
        decreases table.len() - k,
    {
        write_string(&mut bytes, &table[k]);
        assert(tv.take(k + 1).drop_last() == tv.take(k as int));
        assert(tv.take(k + 1).last() == table@[k as int]@);
        k += 1;
    }
    assert(tv.take(table.len() as int) == tv);
    write_varint(&mut bytes, ids.len() as u64);
    let ghost after_len = bytes@;
    let ghost idsv = content_ids_view(ids@);
    let mut i: usize = 0;
    while i < ids.len()
        invariant
            i <= ids.len(),
            idsv == content_ids_view(ids@),
            tv == strings_view(table@),
            valid_prefix_table(idsv, tv),
            bytes@ == after_len + content_ids_bytes(tv, idsv.take(i as int)),
        decreases ids.len() - i,
    {
        let id = &ids[i];
        assert(idsv[i as int] == id@);
        assert(tv.contains(idsv[i as int].prefix));
        assert forall|a: int, b: int| 0 <= a < b < table.len() implies table@[a]@ != table@[b]@ by {
            assert(tv[a] == table@[a]@);
            assert(tv[b] == table@[b]@);
        }
        let code = find_prefix(&table, &id.prefix);
        write_varint(&mut bytes, code as u64);
        write_varint(&mut bytes, id.number);
        assert(idsv.take(i + 1).drop_last() == idsv.take(i as int));
        assert(idsv.take(i + 1).last() == id@);
        i += 1;
    }
    assert(idsv.take(ids.len() as int) == idsv);
    assert(bytes@ == encode_binary_spec(sv, tv));
    Ok(bytes)
}

// ---------------------------------------------------------------------------
// Decoding errors
// ---------------------------------------------------------------------------

#[verifier::external_type_specification]
#[verifier::external_body]
pub struct ExBase64DecodeError(Base64Error);

#[verifier::external_type_specification]
#[verifier::external_body]
pub struct ExIoError(std::io::Error);

#[verifier::external_type_specification]
#[verifier::external_body]
pub struct ExFromUtf8Error(std::string::FromUtf8Error);

#[verifier::external_type_specification]
#[verifier::external_body]
pub struct ExComponentRange(time::error::ComponentRange);

#[verifier::external_type_specification]
#[verifier::external_body]
pub struct ExOffsetDateTime(time::OffsetDateTime);

/// Why decoding failed.
#[derive(Debug)]
#[allow(inconsistent_fields)]
pub enum DecodeError {
    /// The text is empty.
    Empty,
    /// The text starts with a version character other than [`VERSION`].
    UnsupportedVersion(char),
    /// The payload is not URL-safe Base64 without padding.
    Base64(Base64Error),
    /// The payload is not a Brotli stream.
    Decompress(std::io::Error),
    /// The binary record is longer than `limit` bytes.
    DecompressedSizeLimitExceeded { limit: usize },
    /// A backslash in a string field is followed by neither `0` nor a backslash.
    InvalidEscapeSequence,
    /// Bytes follow the end of the record.
    TrailingBytes,
    /// The record ends inside a field.
    UnexpectedEof,
    /// A string field is not UTF-8.
    Utf8(std::string::FromUtf8Error),
    /// A timestamp lies outside the range of `time::OffsetDateTime`.
    Timestamp(time::error::ComponentRange),
    /// A content identifier refers to a prefix the table does not hold.
    InvalidContentIdPrefix,
    /// A varint runs past ten bytes.
    InvalidVarint,
    /// The record holds more than `limit` content identifiers.
    TooManyContentIds { limit: u64 },
}

/// The kind of a [`DecodeError`], without the details that outside crates attach.
#[derive(Debug, Clone, Copy, PartialEq, Eq, Structural)]
pub enum DecodeFailure {
    Empty,
    UnsupportedVersion(char),
    Base64,
    Decompress,
    DecompressedSizeLimitExceeded,
    InvalidEscapeSequence,
    TrailingBytes,
    UnexpectedEof,
    Utf8,
    Timestamp,
    InvalidContentIdPrefix,
    InvalidVarint,
    TooManyContentIds,
}

impl DecodeError {
    /// The kind of this error. The limits it carries are the constants of this module.
    pub open spec fn failure(&self) -> DecodeFailure {
        match self {
            DecodeError::Empty => DecodeFailure::Empty,
            DecodeError::UnsupportedVersion(c) => DecodeFailure::UnsupportedVersion(*c),
            DecodeError::Base64(_) => DecodeFailure::Base64,
            DecodeError::Decompress(_) => DecodeFailure::Decompress,
            DecodeError::DecompressedSizeLimitExceeded { .. } => DecodeFailure::DecompressedSizeLimitExceeded,
            DecodeError::InvalidEscapeSequence => DecodeFailure::InvalidEscapeSequence,
            DecodeError::TrailingBytes => DecodeFailure::TrailingBytes,
            DecodeError::UnexpectedEof => DecodeFailure::UnexpectedEof,
            DecodeError::Utf8(_) => DecodeFailure::Utf8,
            DecodeError::Timestamp(_) => DecodeFailure::Timestamp,
            DecodeError::InvalidContentIdPrefix => DecodeFailure::InvalidContentIdPrefix,
            DecodeError::InvalidVarint => DecodeFailure::InvalidVarint,
            DecodeError::TooManyContentIds { .. } => DecodeFailure::TooManyContentIds,
        }
    }

    /// Whether the limits that this error carries are those of this module.
    pub open spec fn limits_are_constants(&self) -> bool {
        match self {
            DecodeError::DecompressedSizeLimitExceeded { limit } => *limit == MAX_DECOMPRESSED_SIZE,
            DecodeError::TooManyContentIds { limit } => *limit == MAX_CONTENT_IDS,
            _ => true,
        }
    }
}

/// The opening words of the message of an error that names its kind.
pub open spec fn decode_failed_words() -> Seq<char> {
    "デコードに失敗しました: "@
}

/// The message of a kind that carries an outside error: the opening words, the kind's
/// name, and then the outside error's debug text in round brackets.
pub open spec fn names_outside_error(r: Seq<char>, kind: Seq<char>) -> bool {
    exists|t: Seq<char>| r == decode_failed_words() + kind + "("@ + t + ")"@
}

/// Calls `format!` with `{:?}` on a `base64::DecodeError`, whose `Debug` is derived.
/// Nothing is stated of the text.
#[verifier::external_body]
fn base64_error_debug(e: &Base64Error) -> String {
    format!("{e:?}")
}

/// Calls `format!` with `{:?}` on a `std::io::Error`. Nothing is stated of the text.
#[verifier::external_body]
fn io_error_debug(e: &std::io::Error) -> String {
    format!("{e:?}")
}

/// Calls `format!` with `{:?}` on a `std::string::FromUtf8Error`. Nothing is stated of
/// the text.
#[verifier::external_body]
fn utf8_error_debug(e: &std::string::FromUtf8Error) -> String {
    format!("{e:?}")
}

/// Calls `format!` with `{:?}` on a `time::error::ComponentRange`, whose `Debug` is
/// derived. Nothing is stated of the text.
#[verifier::external_body]
fn component_range_debug(e: &time::error::ComponentRange) -> String {
    format!("{e:?}")
}

/// Whether `r` is the message of `e`: the fixed message of its kind, or, for a kind
/// that carries an outside error, the opening words, the kind's name and that error's
/// debug text in round brackets.
pub open spec fn is_message_of(e: DecodeError, r: Seq<char>) -> bool {
    match e {
        DecodeError::Empty => r == "共有データが空です"@,
        DecodeError::UnsupportedVersion(c) => r == "未対応の共有データバージョンです: "@.push(c),
        DecodeError::DecompressedSizeLimitExceeded { limit } => r
            == "共有データの展開後サイズが大きすぎます: limit="@ + crate::text::decimal_text(limit as nat)
            + " bytes"@,
        DecodeError::TooManyContentIds { limit } => r == "共有データのcontentIdsが多すぎます: limit="@
            + crate::text::decimal_text(limit as nat),
        DecodeError::InvalidEscapeSequence => r == decode_failed_words() + "InvalidEscapeSequence"@,
        DecodeError::TrailingBytes => r == decode_failed_words() + "TrailingBytes"@,
        DecodeError::UnexpectedEof => r == decode_failed_words() + "UnexpectedEof"@,
        DecodeError::InvalidContentIdPrefix => r == decode_failed_words() + "InvalidContentIdPrefix"@,
        DecodeError::InvalidVarint => r == decode_failed_words() + "InvalidVarint"@,
        DecodeError::Base64(_) => names_outside_error(r, "Base64"@),
        DecodeError::Decompress(_) => names_outside_error(r, "Decompress"@),
        DecodeError::Utf8(_) => names_outside_error(r, "Utf8"@),
        DecodeError::Timestamp(_) => names_outside_error(r, "Timestamp"@),
    }
}

/// Appends the opening words and then the name of a kind.
fn push_kind(out: &mut String, kind: &str)
    ensures
        final(out)@ == old(out)@ + decode_failed_words() + kind@,
{
    crate::text::append_chars(out, "デコードに失敗しました: ");
    crate::text::append_chars(out, kind);
}

/// Appends the message of a kind that carries an outside error, given that error's
/// debug text.
fn push_outside_error(out: &mut String, kind: &str, detail: &str)
    ensures
        final(out)@ == old(out)@ + decode_failed_words() + kind@ + "("@ + detail@ + ")"@,
{
    push_kind(out, kind);
    crate::text::append_chars(out, "(");
    crate::text::append_chars(out, detail);
    crate::text::append_chars(out, ")");
}

impl DecodeError {
    /// The message that describes the error. A kind without a fixed message of its own
    /// reads as the opening words followed by the kind's name, and, for a kind that
    /// carries an outside error, that error's debug text in round brackets.
    pub fn message(&self) -> (r: String)
        ensures
            is_message_of(*self, r@),
    {
        let mut out = String::new();
        match self {
            DecodeError::Empty => crate::text::append_chars(&mut out, "共有データが空です"),
            DecodeError::UnsupportedVersion(c) => {
                crate::text::append_chars(&mut out, "未対応の共有データバージョンです: ");
                crate::text::push_char(&mut out, *c);
            },
            DecodeError::DecompressedSizeLimitExceeded { limit } => {
                crate::text::append_chars(&mut out, "共有データの展開後サイズが大きすぎます: limit=");
                crate::text::write_decimal(&mut out, *limit as u64);
                crate::text::append_chars(&mut out, " bytes");
            },
            DecodeError::TooManyContentIds { limit } => {
                crate::text::append_chars(&mut out, "共有データのcontentIdsが多すぎます: limit=");
                crate::text::write_decimal(&mut out, *limit);
            },
            DecodeError::InvalidEscapeSequence => push_kind(&mut out, "InvalidEscapeSequence"),
            DecodeError::TrailingBytes => push_kind(&mut out, "TrailingBytes"),
            DecodeError::UnexpectedEof => push_kind(&mut out, "UnexpectedEof"),
            DecodeError::InvalidContentIdPrefix => push_kind(&mut out, "InvalidContentIdPrefix"),
            DecodeError::InvalidVarint => push_kind(&mut out, "InvalidVarint"),
            DecodeError::Base64(e) => push_outside_error(&mut out, "Base64", base64_error_debug(e).as_str()),
            DecodeError::Decompress(e) => push_outside_error(&mut out, "Decompress", io_error_debug(e).as_str()),
            DecodeError::Utf8(e) => push_outside_error(&mut out, "Utf8", utf8_error_debug(e).as_str()),
            DecodeError::Timestamp(e) => push_outside_error(
                &mut out,
                "Timestamp",
                component_range_debug(e).as_str(),
            ),
        }
        out
    }
}

/// The decoding failure that a primitive's failure becomes.
pub open spec fn wire_failure(e: WireError) -> DecodeFailure {
    match e {
        WireError::UnexpectedEof => DecodeFailure::UnexpectedEof,
        WireError::InvalidVarint => DecodeFailure::InvalidVarint,
        WireError::InvalidEscapeSequence => DecodeFailure::InvalidEscapeSequence,
    }
}

fn from_wire(e: WireError) -> (r: DecodeError)
    ensures
        r.failure() == wire_failure(e),
        r.limits_are_constants(),
{
    match e {
        WireError::UnexpectedEof => DecodeError::UnexpectedEof,
        WireError::InvalidVarint => DecodeError::InvalidVarint,
        WireError::InvalidEscapeSequence => DecodeError::InvalidEscapeSequence,
    }
}

// ---------------------------------------------------------------------------
// Trusted calls made while decoding
// ---------------------------------------------------------------------------

/// Calls `String::from_utf8`, which the standard library documents as succeeding
/// exactly when the bytes are valid UTF-8, and then returning the string they encode.
#[verifier::external_body]
fn string_from_utf8(bytes: Vec<u8>) -> (r: Result<String, std::string::FromUtf8Error>)
    ensures
        match r {
            Ok(s) => valid_utf8(bytes@) && s@ == decode_utf8(bytes@),
            Err(_) => !valid_utf8(bytes@),
        },
{
    String::from_utf8(bytes)
}

/// Calls `time::OffsetDateTime::from_unix_timestamp`, which (without the crate's
/// `large-dates` feature, which nothing here enables) succeeds exactly for timestamps
/// from -9999-01-01T00:00:00Z to 9999-12-31T23:59:59Z.
#[verifier::external_body]
fn offset_date_time_from_unix_timestamp(timestamp: i64) -> (r: Result<
    time::OffsetDateTime,
    time::error::ComponentRange,
>)
    ensures
        r is Ok <==> valid_timestamp(timestamp as int),
{
    time::OffsetDateTime::from_unix_timestamp(timestamp)
}

/// The character of a 6-bit value in the URL-safe Base64 alphabet of RFC 4648: `A`-`Z`,
/// `a`-`z`, `0`-`9`, `-`, `_`.
pub open spec fn url_safe_base64_digit(v: nat) -> char {
    if v < 26 {
        (v + 65) as char
    } else if v < 52 {
        (v + 71) as char
    } else if v < 62 {
        (v - 4) as char
    } else if v == 62 {
        '-'
    } else {
        '_'
    }
}

/// The URL-safe Base64 text of bytes without padding (RFC 4648): each group of three
/// bytes as four characters of six bits each, and a last group of one or two bytes as two
/// or three characters, the missing bits zero.
pub open spec fn base64_url_encoded(bytes: Seq<u8>) -> Seq<char>
    decreases bytes.len(),
{
    let d = |v: nat| url_safe_base64_digit(v);
    if bytes.len() == 0 {
        Seq::empty()
    } else if bytes.len() == 1 {
        let a = bytes[0] as nat;
        seq![d(a / 4), d(a % 4 * 16)]
    } else if bytes.len() == 2 {
        let (a, b) = (bytes[0] as nat, bytes[1] as nat);
        seq![d(a / 4), d(a % 4 * 16 + b / 16), d(b % 16 * 4)]
    } else {
        let (a, b, c) = (bytes[0] as nat, bytes[1] as nat, bytes[2] as nat);
        seq![d(a / 4), d(a % 4 * 16 + b / 16), d(b % 16 * 4 + c / 64), d(c % 64)]
            + base64_url_encoded(bytes.skip(3))
    }
}

/// What URL-safe Base64 without padding reads from `text`: the bytes whose encoding it
/// is, or `None` when it is the encoding of no bytes.
pub open spec fn base64_url_decoded(text: Seq<char>) -> Option<Seq<u8>> {
    if exists|b: Seq<u8>| base64_url_encoded(b) == text {
        Some(choose|b: Seq<u8>| base64_url_encoded(b) == text)
    } else {
        None
    }
}

/// A name for the stream that `brotli::BrotliCompress` writes for `bytes` at the given
/// quality level.
pub uninterp spec fn brotli_compressed(bytes: Seq<u8>, quality: i32) -> Seq<u8>;

/// A name for what reading at most `limit` bytes from a `brotli::Decompressor` over
/// `bytes`, with the given buffer size, gives: the bytes read, or `None` when the reader
/// reports an error.
pub uninterp spec fn brotli_decompressed(bytes: Seq<u8>, buffer_size: usize, limit: u64) -> Option<
    Seq<u8>,
>;

/// The first `limit` bytes of `b`, or all of it when it is shorter.
pub open spec fn bytes_up_to(b: Seq<u8>, limit: u64) -> Seq<u8> {
    if b.len() <= limit {
        b
    } else {
        b.take(limit as int)
    }
}

/// Whether `c` belongs to the URL-safe Base64 alphabet of RFC 4648 (`A`-`Z`, `a`-`z`,
/// `0`-`9`, `-` and `_`).
pub open spec fn url_safe_base64_char(c: char) -> bool {
    ('A' <= c <= 'Z') || ('a' <= c <= 'z') || ('0' <= c <= '9') || c == '-' || c == '_'
}

/// Every value below 64 has a character of the URL-safe alphabet.
proof fn lemma_url_safe_base64_digit(v: nat)
    requires
        v < 64,
    ensures
        url_safe_base64_char(url_safe_base64_digit(v)),
{
}

/// URL-safe Base64 text is made of the URL-safe alphabet.
pub proof fn lemma_base64_url_encoded_chars(bytes: Seq<u8>)
    ensures
        forall|i: int|
            0 <= i < base64_url_encoded(bytes).len() ==> url_safe_base64_char(
                #[trigger] base64_url_encoded(bytes)[i],
            ),
    decreases bytes.len(),
{
    let t = base64_url_encoded(bytes);
    if bytes.len() > 0 {
        let a = bytes[0] as nat;
        let b: nat = if bytes.len() > 1 {
            bytes[1] as nat
        } else {
            0
        };
        let c: nat = if bytes.len() > 2 {
            bytes[2] as nat
        } else {
            0
        };
        lemma_url_safe_base64_digit(a / 4);
        lemma_url_safe_base64_digit(a % 4 * 16);
        lemma_url_safe_base64_digit(a % 4 * 16 + b / 16);
        lemma_url_safe_base64_digit(b % 16 * 4);
        lemma_url_safe_base64_digit(b % 16 * 4 + c / 64);
        lemma_url_safe_base64_digit(c % 64);
        if bytes.len() > 2 {
            lemma_base64_url_encoded_chars(bytes.skip(3));
            let rest = base64_url_encoded(bytes.skip(3));
            assert forall|i: int| 0 <= i < t.len() implies url_safe_base64_char(#[trigger] t[i]) by {
                if i >= 4 {
                    assert(t[i] == rest[i - 4]);
                }
            }
        }
    }
}

/// Different values below 64 have different characters.
proof fn lemma_url_safe_base64_digit_injective(v: nat, w: nat)
    requires
        v < 64,
        w < 64,
        url_safe_base64_digit(v) == url_safe_base64_digit(w),
    ensures
        v == w,
{
}

/// The text of one, two, or at least three bytes has two, three, or at least four
/// characters.
proof fn lemma_base64_url_encoded_len(bytes: Seq<u8>)
    ensures
        bytes.len() == 0 ==> base64_url_encoded(bytes).len() == 0,
        bytes.len() == 1 ==> base64_url_encoded(bytes).len() == 2,
        bytes.len() == 2 ==> base64_url_encoded(bytes).len() == 3,
        bytes.len() >= 3 ==> base64_url_encoded(bytes).len() >= 4,
{
}

/// Different bytes have different URL-safe Base64 texts.
pub proof fn lemma_base64_url_encoded_injective(x: Seq<u8>, y: Seq<u8>)
    requires
        base64_url_encoded(x) == base64_url_encoded(y),
    ensures
        x == y,
    decreases x.len(),
{
    let t = base64_url_encoded(x);
    lemma_base64_url_encoded_len(x);
    lemma_base64_url_encoded_len(y);
    if x.len() > 0 {
        assert(y.len() > 0);
        let (a, a2) = (x[0] as nat, y[0] as nat);
        let u = base64_url_encoded(y);
        assert(t[0] == url_safe_base64_digit(a / 4));
        assert(u[0] == url_safe_base64_digit(a2 / 4));
        lemma_url_safe_base64_digit_injective(a / 4, a2 / 4);
        if x.len() == 1 {
            assert(y.len() == 1);
            lemma_url_safe_base64_digit_injective(a % 4 * 16, a2 % 4 * 16);
            assert(x =~= y);
        } else {
            assert(y.len() >= 2);
            let (b, b2) = (x[1] as nat, y[1] as nat);
            assert(t[1] == url_safe_base64_digit(a % 4 * 16 + b / 16));
            assert(u[1] == url_safe_base64_digit(a2 % 4 * 16 + b2 / 16));
            lemma_url_safe_base64_digit_injective(a % 4 * 16 + b / 16, a2 % 4 * 16 + b2 / 16);
            if x.len() == 2 {
                assert(y.len() == 2);
                lemma_url_safe_base64_digit_injective(b % 16 * 4, b2 % 16 * 4);
                assert(x =~= y);
            } else {
                assert(y.len() >= 3);
                let (c, c2) = (x[2] as nat, y[2] as nat);
                assert(t[2] == url_safe_base64_digit(b % 16 * 4 + c / 64));
                assert(u[2] == url_safe_base64_digit(b2 % 16 * 4 + c2 / 64));
                assert(t[3] == url_safe_base64_digit(c % 64));
                assert(u[3] == url_safe_base64_digit(c2 % 64));
                lemma_url_safe_base64_digit_injective(b % 16 * 4 + c / 64, b2 % 16 * 4 + c2 / 64);
                lemma_url_safe_base64_digit_injective(c % 64, c2 % 64);
                assert(base64_url_encoded(x.skip(3)) =~= t.skip(4));
                assert(base64_url_encoded(y.skip(3)) =~= t.skip(4));
                lemma_base64_url_encoded_injective(x.skip(3), y.skip(3));
                assert(x =~= seq![x[0], x[1], x[2]] + x.skip(3));
                assert(y =~= seq![y[0], y[1], y[2]] + y.skip(3));
            }
        }
    }
}

/// Reading URL-safe Base64 back gives the bytes it was written for.
pub proof fn lemma_base64_url_roundtrip(bytes: Seq<u8>)
    ensures
        base64_url_decoded(base64_url_encoded(bytes)) == Some(bytes),
{
    let text = base64_url_encoded(bytes);
    assert(exists|b: Seq<u8>| base64_url_encoded(b) == text);
    let b = choose|b: Seq<u8>| base64_url_encoded(b) == text;
    lemma_base64_url_encoded_injective(b, bytes);
}

/// Calls `Engine::encode` of the `base64` crate's `BASE64_URL_SAFE_NO_PAD` engine, which
/// writes the URL-safe alphabet without `=` padding.
#[verifier::external_body]
fn base64_url_encode(bytes: &[u8]) -> (r: String)
    ensures
        r@ == base64_url_encoded(bytes@),
{
    base64::prelude::BASE64_URL_SAFE_NO_PAD.encode(bytes)
}

/// Calls `Engine::decode` of the `base64` crate's `BASE64_URL_SAFE_NO_PAD` engine. Its
/// configuration (no padding, `RequireNone`, trailing bits not allowed) takes exactly the
/// texts that its encoding writes, and gives back the bytes they encode; any other text
/// is an error.
#[verifier::external_body]
fn base64_url_decode(text: &str) -> (r: Result<Vec<u8>, Base64Error>)
    ensures
        match r {
            Ok(bytes) => base64_url_decoded(text@) == Some(bytes@),
            Err(_) => base64_url_decoded(text@) is None,
        },
{
    base64::prelude::BASE64_URL_SAFE_NO_PAD.decode(text)
}

/// Calls `brotli::BrotliCompress` with the given quality and otherwise default encoder
/// parameters, reading from the bytes and writing into a fresh vector. The stream is
/// named; the contract adds the documented property of a lossless format: reading at
/// most `limit` bytes back from a decompressor over the stream gives the first `limit`
/// bytes of the input. The call succeeds: `BrotliCompress` reports only errors of its
/// reader and writer, here a `Cursor` over a slice and a `Vec`, which do not fail.
#[verifier::external_body]
fn brotli_compress(bytes: &[u8], quality: i32) -> (r: Result<Vec<u8>, std::io::Error>)
    ensures
        r is Ok,
        r matches Ok(out) ==> {
            &&& out@ == brotli_compressed(bytes@, quality)
            &&& forall|buffer_size: usize, limit: u64|
                #[trigger] brotli_decompressed(out@, buffer_size, limit) == Some(
                    bytes_up_to(bytes@, limit),
                )
        },
{
    let mut output = Vec::new();
    let params = brotli::enc::BrotliEncoderParams { quality, ..Default::default() };
    match brotli::BrotliCompress(&mut std::io::Cursor::new(bytes), &mut output, &params) {
        Ok(_) => Ok(output),
        Err(e) => Err(e),
    }
}

/// Reads at most `limit` bytes from a `brotli::Decompressor` with the given buffer size
/// over `bytes`, through `Read::take` and `Read::read_to_end`; the result, bytes or error,
/// is named by `brotli_decompressed`.
#[verifier::external_body]
fn brotli_decompress_up_to(bytes: &[u8], buffer_size: usize, limit: u64) -> (r: Result<
    Vec<u8>,
    std::io::Error,
>)
    ensures
        match r {
            Ok(out) => brotli_decompressed(bytes@, buffer_size, limit) == Some(out@),
            Err(_) => brotli_decompressed(bytes@, buffer_size, limit) is None,
        },
{
    let mut output = Vec::new();
    match brotli::Decompressor::new(std::io::Cursor::new(bytes), buffer_size).take(limit).read_to_end(
        &mut output,
    ) {
        Ok(_) => Ok(output),
        Err(e) => Err(e),
    }
}

// ---------------------------------------------------------------------------
// Reading the binary record
// ---------------------------------------------------------------------------

/// Reading one byte.
pub open spec fn parse_u8_spec(s: Seq<u8>) -> Result<(nat, u8), DecodeFailure> {
    if s.len() == 0 {
        Err(DecodeFailure::UnexpectedEof)
    } else {
        Ok((1, s[0]))
    }
}

/// Reading a varint field.
pub open spec fn parse_varint_field(s: Seq<u8>) -> Result<(nat, u64), DecodeFailure> {
    match parse_varint_spec(s) {
        Ok(r) => Ok(r),
        Err(e) => Err(wire_failure(e)),
    }
}

/// Reading a string field: escaped bytes up to a zero terminator, which must be UTF-8.
pub open spec fn parse_string_spec(s: Seq<u8>) -> Result<(nat, Seq<char>), DecodeFailure> {
    match parse_bytes_spec(s) {
        Err(e) => Err(wire_failure(e)),
        Ok((n, b)) => if valid_utf8(b) {
            Ok((n, decode_utf8(b)))
        } else {
            Err(DecodeFailure::Utf8)
        },
    }
}

/// Reading an optional number, present or not as the flags say.
pub open spec fn parse_optional_varint_spec(s: Seq<u8>, present: bool) -> Result<
    (nat, Option<u64>),
    DecodeFailure,
> {
    if !present {
        Ok((0, None))
    } else {
        match parse_varint_field(s) {
            Err(e) => Err(e),
            Ok((n, v)) => Ok((n, Some(v))),
        }
    }
}

/// Reading an optional timestamp, present or not as the flags say.
pub open spec fn parse_optional_timestamp_spec(s: Seq<u8>, present: bool) -> Result<
    (nat, Option<i64>),
    DecodeFailure,
> {
    if !present {
        Ok((0, None))
    } else {
        match parse_varint_field(s) {
            Err(e) => Err(e),
            Ok((n, v)) => if valid_timestamp(unzigzag(v as int)) {
                Ok((n, Some(unzigzag(v as int) as i64)))
            } else {
                Err(DecodeFailure::Timestamp)
            },
        }
    }
}

/// Reading the start of the search conditions: tag, result count and flags.
pub open spec fn parse_search_head_spec(s: Seq<u8>) -> Result<(nat, (Seq<char>, u64, u8)), DecodeFailure> {
    match parse_string_spec(s) {
        Err(e) => Err(e),
        Ok((n1, tag)) => match parse_varint_field(s.skip(n1 as int)) {
            Err(e) => Err(e),
            Ok((n2, result_count)) => match parse_u8_spec(s.skip(n1 as int).skip(n2 as int)) {
                Err(e) => Err(e),
                Ok((n3, flags)) => Ok((n1 + n2 + n3, (tag, result_count, flags))),
            },
        },
    }
}

/// Reading the view count bounds that the flags announce.
pub open spec fn parse_view_bounds_spec(s: Seq<u8>, flags: u8) -> Result<
    (nat, (Option<u64>, Option<u64>)),
    DecodeFailure,
> {
    match parse_optional_varint_spec(s, flags & 1 != 0) {
        Err(e) => Err(e),
        Ok((n1, view_min)) => match parse_optional_varint_spec(s.skip(n1 as int), flags & 2 != 0) {
            Err(e) => Err(e),
            Ok((n2, view_max)) => Ok((n1 + n2, (view_min, view_max))),
        },
    }
}

/// Reading the upload time bounds that the flags announce.
pub open spec fn parse_time_bounds_spec(s: Seq<u8>, flags: u8) -> Result<
    (nat, (Option<i64>, Option<i64>)),
    DecodeFailure,
> {
    match parse_optional_timestamp_spec(s, flags & 4 != 0) {
        Err(e) => Err(e),
        Ok((n1, since)) => match parse_optional_timestamp_spec(s.skip(n1 as int), flags & 8 != 0) {
            Err(e) => Err(e),
            Ok((n2, until)) => Ok((n1 + n2, (since, until))),
        },
    }
}

/// Reading the search conditions: tag, result count, flags, then the bounds that the
/// flags announce.
pub open spec fn parse_search_state_spec(s: Seq<u8>) -> Result<
    (nat, SearchStateV1View),
    DecodeFailure,
> {
    match parse_search_head_spec(s) {
        Err(e) => Err(e),
        Ok((n1, (tag, result_count, flags))) => match parse_view_bounds_spec(
            s.skip(n1 as int),
            flags,
        ) {
            Err(e) => Err(e),
            Ok((n2, (view_min, view_max))) => match parse_time_bounds_spec(
                s.skip(n1 as int).skip(n2 as int),
                flags,
            ) {
                Err(e) => Err(e),
                Ok((n3, (since, until))) => Ok(
                    (
                        n1 + n2 + n3,
                        SearchStateV1View {
                            tag,
                            uploaded_since: since,
                            uploaded_until: until,
                            view_min,
                            view_max,
                            result_count,
                        },
                    ),
                ),
            },
        },
    }
}

/// Reading `count` string fields in a row.
pub open spec fn parse_prefixes_spec(s: Seq<u8>, count: nat) -> Result<
    (nat, Seq<Seq<char>>),
    DecodeFailure,
>
    decreases count,
{
    if count == 0 {
        Ok((0, Seq::empty()))
    } else {
        match parse_string_spec(s) {
            Err(e) => Err(e),
            Ok((n, p)) => match parse_prefixes_spec(s.skip(n as int), (count - 1) as nat) {
                Err(e) => Err(e),
                Ok((m, rest)) => Ok((n + m, seq![p] + rest)),
            },
        }
    }
}

/// Reading one content identifier: a prefix code byte, which must index the table,
/// then a varint number.
pub open spec fn parse_content_id_spec(s: Seq<u8>, t: Seq<Seq<char>>) -> Result<
    (nat, ContentIdView),
    DecodeFailure,
> {
    match parse_u8_spec(s) {
        Err(e) => Err(e),
        Ok((n1, code)) => if code >= t.len() {
            Err(DecodeFailure::InvalidContentIdPrefix)
        } else {
            match parse_varint_field(s.skip(n1 as int)) {
                Err(e) => Err(e),
                Ok((n2, number)) => Ok((n1 + n2, ContentIdView { prefix: t[code as int], number })),
            }
        },
    }
}

/// Reading `count` content identifiers in a row.
pub open spec fn parse_content_ids_spec(s: Seq<u8>, count: nat, t: Seq<Seq<char>>) -> Result<
    (nat, Seq<ContentIdView>),
    DecodeFailure,
>
    decreases count,
{
    if count == 0 {
        Ok((0, Seq::empty()))
    } else {
        match parse_content_id_spec(s, t) {
            Err(e) => Err(e),
            Ok((n, id)) => match parse_content_ids_spec(s.skip(n as int), (count - 1) as nat, t) {
                Err(e) => Err(e),
                Ok((m, rest)) => Ok((n + m, seq![id] + rest)),
            },
        }
    }
}

/// Reading the content identifiers that follow the prefix table `t`: a varint count of
/// at most [`MAX_CONTENT_IDS`], the identifiers, and then the end of the record.
pub open spec fn parse_ids_section_spec(s: Seq<u8>, t: Seq<Seq<char>>) -> Result<
    Seq<ContentIdView>,
    DecodeFailure,
> {
    match parse_varint_field(s) {
        Err(e) => Err(e),
        Ok((n1, count)) => if count > MAX_CONTENT_IDS {
            Err(DecodeFailure::TooManyContentIds)
        } else {
            match parse_content_ids_spec(s.skip(n1 as int), count as nat, t) {
                Err(e) => Err(e),
                Ok((n2, ids)) => if s.skip(n1 as int).skip(n2 as int).len() != 0 {
                    Err(DecodeFailure::TrailingBytes)
                } else {
                    Ok(ids)
                },
            }
        },
    }
}

/// Reading what follows the prefix count: nothing when the count is zero, otherwise the
/// prefix table and the content identifiers.
pub open spec fn parse_content_section_spec(s: Seq<u8>, prefix_count: u8) -> Result<
    Seq<ContentIdView>,
    DecodeFailure,
> {
    if prefix_count == 0 {
        if s.len() != 0 {
            Err(DecodeFailure::TrailingBytes)
        } else {
            Ok(Seq::empty())
        }
    } else {
        match parse_prefixes_spec(s, prefix_count as nat) {
            Err(e) => Err(e),
            Ok((n, table)) => parse_ids_section_spec(s.skip(n as int), table),
        }
    }
}

/// Reading a whole binary record, which must end where the record does.
pub open spec fn decode_binary_spec(s: Seq<u8>) -> Result<ShareStateV1View, DecodeFailure> {
    match parse_search_state_spec(s) {
        Err(e) => Err(e),
        Ok((n1, search)) => match parse_u8_spec(s.skip(n1 as int)) {
            Err(e) => Err(e),
            Ok((n2, prefix_count)) => match parse_content_section_spec(
                s.skip(n1 as int).skip(n2 as int),
                prefix_count,
            ) {
                Err(e) => Err(e),
                Ok(ids) => Ok(ShareStateV1View { search, content_ids: ids }),
            },
        },
    }
}

proof fn lemma_skip_skip(s: Seq<u8>, a: int, b: int)
    requires
        0 <= a,
        0 <= b,
        a + b <= s.len(),
    ensures
        s.skip(a).skip(b) == s.skip(a + b),
{
    assert(s.skip(a).skip(b) =~= s.skip(a + b));
}

/// Reads one byte at `input[pos]`.
fn parse_u8(input: &[u8], pos: usize) -> (r: Result<(usize, u8), DecodeError>)
    requires
        pos <= input.len(),
    ensures
        match r {
            Ok((next, v)) => pos < next <= input.len() && parse_u8_spec(input@.skip(pos as int))
                == Ok::<(nat, u8), DecodeFailure>(((next - pos) as nat, v)),
            Err(e) => parse_u8_spec(input@.skip(pos as int)) == Err::<(nat, u8), DecodeFailure>(
                e.failure(),
            ) && e.limits_are_constants(),
        },
{
    if pos >= input.len() {
        return Err(DecodeError::UnexpectedEof);
    }
    assert(input@.skip(pos as int)[0] == input@[pos as int]);
    Ok((pos + 1, input[pos]))
}

/// Reads a varint field at `input[pos]`.
fn parse_varint_at(input: &[u8], pos: usize) -> (r: Result<(usize, u64), DecodeError>)
    requires
        pos <= input.len(),
    ensures
        match r {
            Ok((next, v)) => pos < next <= input.len() && parse_varint_field(
                input@.skip(pos as int),
            ) == Ok::<(nat, u64), DecodeFailure>(((next - pos) as nat, v)),
            Err(e) => parse_varint_field(input@.skip(pos as int)) == Err::<(nat, u64), DecodeFailure>(
                e.failure(),
            ) && e.limits_are_constants(),
        },
{
    match parse_varint(input, pos) {
        Ok(r) => Ok(r),
        Err(e) => Err(from_wire(e)),
    }
}

/// Reads a string field at `input[pos]`.
fn parse_string(input: &[u8], pos: usize) -> (r: Result<(usize, String), DecodeError>)
    requires
        pos <= input.len(),
    ensures
        match r {
            Ok((next, v)) => pos < next <= input.len() && parse_string_spec(input@.skip(pos as int))
                == Ok::<(nat, Seq<char>), DecodeFailure>(((next - pos) as nat, v@)),
            Err(e) => parse_string_spec(input@.skip(pos as int)) == Err::<
                (nat, Seq<char>),
                DecodeFailure,
            >(e.failure()) && e.limits_are_constants(),
        },
{
    match parse_bytes(input, pos) {
        Err(e) => Err(from_wire(e)),
        Ok((next, bytes)) => match string_from_utf8(bytes) {
            Ok(s) => Ok((next, s)),
            Err(e) => Err(DecodeError::Utf8(e)),
        },
    }
}

/// Reads an optional number at `input[pos]`, present or not as the flags say.
fn parse_optional_varint(input: &[u8], pos: usize, present: bool) -> (r: Result<
    (usize, Option<u64>),
    DecodeError,
>)
    requires
        pos <= input.len(),
    ensures
        match r {
            Ok((next, v)) => pos <= next <= input.len() && parse_optional_varint_spec(
                input@.skip(pos as int),
                present,
            ) == Ok::<(nat, Option<u64>), DecodeFailure>(((next - pos) as nat, v)),
            Err(e) => parse_optional_varint_spec(input@.skip(pos as int), present) == Err::<
                (nat, Option<u64>),
                DecodeFailure,
            >(e.failure()) && e.limits_are_constants(),
        },
{
    if present {
        match parse_varint_at(input, pos) {
            Ok((next, v)) => Ok((next, Some(v))),
            Err(e) => Err(e),
        }
    } else {
        Ok((pos, None))
    }
}

/// Reads an optional timestamp at `input[pos]`, present or not as the flags say.
fn parse_optional_datetime(input: &[u8], pos: usize, present: bool) -> (r: Result<
    (usize, Option<i64>),
    DecodeError,
>)
    requires
        pos <= input.len(),
    ensures
        match r {
            Ok((next, v)) => pos <= next <= input.len() && parse_optional_timestamp_spec(
                input@.skip(pos as int),
                present,
            ) == Ok::<(nat, Option<i64>), DecodeFailure>(((next - pos) as nat, v)),
            Err(e) => parse_optional_timestamp_spec(input@.skip(pos as int), present) == Err::<
                (nat, Option<i64>),
                DecodeFailure,
            >(e.failure()) && e.limits_are_constants(),
        },
{
    if !present {
        return Ok((pos, None));
    }
    let (next, value) = parse_varint_at(input, pos)?;
    let timestamp = wire::decode_signed(value);
    match offset_date_time_from_unix_timestamp(timestamp) {
        Ok(_) => Ok((next, Some(timestamp))),
        Err(e) => Err(DecodeError::Timestamp(e)),
    }
}

/// Reads the tag, result count and flags at `input[pos]`.
fn parse_search_head(input: &[u8], pos: usize) -> (r: Result<(usize, (String, u64, u8)), DecodeError>)
    requires
        pos <= input.len(),
    ensures
        match r {
            Ok((next, v)) => pos < next <= input.len() && parse_search_head_spec(
                input@.skip(pos as int),
            ) == Ok::<(nat, (Seq<char>, u64, u8)), DecodeFailure>(
                ((next - pos) as nat, (v.0@, v.1, v.2)),
            ),
            Err(e) => parse_search_head_spec(input@.skip(pos as int)) == Err::<
                (nat, (Seq<char>, u64, u8)),
                DecodeFailure,
            >(e.failure()) && e.limits_are_constants(),
        },
{
    let (p1, tag) = parse_string(input, pos)?;
    proof {
        lemma_skip_skip(input@, pos as int, p1 - pos);
    }
    let (p2, result_count) = parse_varint_at(input, p1)?;
    proof {
        lemma_skip_skip(input@, p1 as int, p2 - p1);
        lemma_skip_skip(input@.skip(pos as int), p1 - pos, p2 - p1);
    }
    let (p3, flags) = parse_u8(input, p2)?;
    Ok((p3, (tag, result_count, flags)))
}

/// Reads the view count bounds that the flags announce, at `input[pos]`.
fn parse_view_bounds(input: &[u8], pos: usize, flags: u8) -> (r: Result<
    (usize, (Option<u64>, Option<u64>)),
    DecodeError,
>)
    requires
        pos <= input.len(),
    ensures
        match r {
            Ok((next, v)) => pos <= next <= input.len() && parse_view_bounds_spec(
                input@.skip(pos as int),
                flags,
            ) == Ok::<(nat, (Option<u64>, Option<u64>)), DecodeFailure>(((next - pos) as nat, v)),
            Err(e) => parse_view_bounds_spec(input@.skip(pos as int), flags) == Err::<
                (nat, (Option<u64>, Option<u64>)),
                DecodeFailure,
            >(e.failure()) && e.limits_are_constants(),
        },
{
    let (p1, view_min) = parse_optional_varint(input, pos, flags & 1 != 0)?;
    proof {
        lemma_skip_skip(input@, pos as int, p1 - pos);
    }
    let (p2, view_max) = parse_optional_varint(input, p1, flags & 2 != 0)?;
    Ok((p2, (view_min, view_max)))
}

/// Reads the upload time bounds that the flags announce, at `input[pos]`.
fn parse_time_bounds(input: &[u8], pos: usize, flags: u8) -> (r: Result<
    (usize, (Option<i64>, Option<i64>)),
    DecodeError,
>)
    requires
        pos <= input.len(),
    ensures
        match r {
            Ok((next, v)) => pos <= next <= input.len() && parse_time_bounds_spec(
                input@.skip(pos as int),
                flags,
            ) == Ok::<(nat, (Option<i64>, Option<i64>)), DecodeFailure>(((next - pos) as nat, v)),
            Err(e) => parse_time_bounds_spec(input@.skip(pos as int), flags) == Err::<
                (nat, (Option<i64>, Option<i64>)),
                DecodeFailure,
            >(e.failure()) && e.limits_are_constants(),
        },
{
    let (p1, since) = parse_optional_datetime(input, pos, flags & 4 != 0)?;
    proof {
        lemma_skip_skip(input@, pos as int, p1 - pos);
    }
    let (p2, until) = parse_optional_datetime(input, p1, flags & 8 != 0)?;
    Ok((p2, (since, until)))
}

/// Reads the search conditions at `input[pos]`.
fn parse_search_state(input: &[u8], pos: usize) -> (r: Result<(usize, SearchStateV1), DecodeError>)
    requires
        pos <= input.len(),
    ensures
        match r {
            Ok((next, v)) => pos < next <= input.len() && parse_search_state_spec(
                input@.skip(pos as int),
            ) == Ok::<(nat, SearchStateV1View), DecodeFailure>(((next - pos) as nat, v@)),
            Err(e) => parse_search_state_spec(input@.skip(pos as int)) == Err::<
                (nat, SearchStateV1View),
                DecodeFailure,
            >(e.failure()) && e.limits_are_constants(),
        },
{
    let (p1, (tag, result_count, flags)) = parse_search_head(input, pos)?;
    proof {
        lemma_skip_skip(input@, pos as int, p1 - pos);
    }
    let (p2, (view_min, view_max)) = parse_view_bounds(input, p1, flags)?;
    proof {
        lemma_skip_skip(input@, p1 as int, p2 - p1);
        lemma_skip_skip(input@.skip(pos as int), p1 - pos, p2 - p1);
    }
    let (p3, (uploaded_since, uploaded_until)) = parse_time_bounds(input, p2, flags)?;
    let state = SearchStateV1 {
        tag,
        uploaded_since,
        uploaded_until,
        view_min,
        view_max,
        result_count,
    };
    Ok((p3, state))
}

/// Reads `count` string fields at `input[pos]`.
fn parse_prefixes(input: &[u8], pos: usize, count: usize) -> (r: Result<
    (usize, Vec<String>),
    DecodeError,
>)
    requires
        pos <= input.len(),
    ensures
        match r {
            Ok((next, v)) => pos <= next <= input.len() && parse_prefixes_spec(
                input@.skip(pos as int),
                count as nat,
            ) == Ok::<(nat, Seq<Seq<char>>), DecodeFailure>(((next - pos) as nat, strings_view(v@))),
            Err(e) => parse_prefixes_spec(input@.skip(pos as int), count as nat) == Err::<
                (nat, Seq<Seq<char>>),
                DecodeFailure,
            >(e.failure()) && e.limits_are_constants(),
        },
{
    let ghost s = input@.skip(pos as int);
    let mut out: Vec<String> = Vec::new();
    let mut at: usize = pos;
    let mut i: usize = 0;
    assert(input@.skip(pos as int) == s);
    while i < count
        invariant
            pos <= at <= input.len(),
            s == input@.skip(pos as int),
            i <= count,
            parse_prefixes_spec(s, count as nat) == match parse_prefixes_spec(
                input@.skip(at as int),
                (count - i) as nat,
            ) {
                Ok((m, rest)) => Ok((((at - pos) + m) as nat, strings_view(out@) + rest)),
                Err(e) => Err::<(nat, Seq<Seq<char>>), DecodeFailure>(e),
            },
        decreases count - i,
    {
        let (next, p) = parse_string(input, at)?;
        proof {
            lemma_skip_skip(input@, at as int, next - at);
            let tail = parse_prefixes_spec(input@.skip(next as int), (count - i - 1) as nat);
            if let Ok((m, rest)) = tail {
                assert(strings_view(out@.push(p)) == strings_view(out@).push(p@));
                assert(strings_view(out@).push(p@) + rest == strings_view(out@) + (seq![p@] + rest));
            }
        }
        out.push(p);
        at = next;
        i += 1;
    }
    assert(strings_view(out@) + Seq::<Seq<char>>::empty() == strings_view(out@));
    Ok((at, out))
}

/// Reads one content identifier at `input[pos]`.
fn parse_content_id(input: &[u8], pos: usize, prefixes: &Vec<String>) -> (r: Result<
    (usize, ContentId),
    DecodeError,
>)
    requires
        pos <= input.len(),
    ensures
        match r {
            Ok((next, v)) => pos < next <= input.len() && parse_content_id_spec(
                input@.skip(pos as int),
                strings_view(prefixes@),
            ) == Ok::<(nat, ContentIdView), DecodeFailure>(((next - pos) as nat, v@)),
            Err(e) => parse_content_id_spec(input@.skip(pos as int), strings_view(prefixes@))
                == Err::<(nat, ContentIdView), DecodeFailure>(e.failure()) && e.limits_are_constants(),
        },
{
    let (p1, code) = parse_u8(input, pos)?;
    if code as usize >= prefixes.len() {
        return Err(DecodeError::InvalidContentIdPrefix);
    }
    proof {
        lemma_skip_skip(input@, pos as int, p1 - pos);
    }
    let (p2, number) = parse_varint_at(input, p1)?;
    let prefix = prefixes[code as usize].clone();
    Ok((p2, ContentId { prefix, number }))
}

/// Reads `count` content identifiers at `input[pos]`.
fn parse_content_ids(input: &[u8], pos: usize, count: usize, prefixes: &Vec<String>) -> (r: Result<
    (usize, Vec<ContentId>),
    DecodeError,
>)
    requires
        pos <= input.len(),
    ensures
        match r {
            Ok((next, v)) => pos <= next <= input.len() && parse_content_ids_spec(
                input@.skip(pos as int),
                count as nat,
                strings_view(prefixes@),
            ) == Ok::<(nat, Seq<ContentIdView>), DecodeFailure>(
                ((next - pos) as nat, content_ids_view(v@)),
            ),
            Err(e) => parse_content_ids_spec(
                input@.skip(pos as int),
                count as nat,
                strings_view(prefixes@),
            ) == Err::<(nat, Seq<ContentIdView>), DecodeFailure>(e.failure())
                && e.limits_are_constants(),
        },
{
    let ghost s = input@.skip(pos as int);
    let ghost t = strings_view(prefixes@);
    let mut out: Vec<ContentId> = Vec::new();
    let mut at: usize = pos;
    let mut i: usize = 0;
    while i < count
        invariant
            pos <= at <= input.len(),
            s == input@.skip(pos as int),
            t == strings_view(prefixes@),
            i <= count,
            parse_content_ids_spec(s, count as nat, t) == match parse_content_ids_spec(
                input@.skip(at as int),
                (count - i) as nat,
                t,
            ) {
                Ok((m, rest)) => Ok((((at - pos) + m) as nat, content_ids_view(out@) + rest)),
                Err(e) => Err::<(nat, Seq<ContentIdView>), DecodeFailure>(e),
            },
        decreases count - i,
    {
        let (next, id) = parse_content_id(input, at, prefixes)?;
        proof {
            lemma_skip_skip(input@, at as int, next - at);
            let tail = parse_content_ids_spec(input@.skip(next as int), (count - i - 1) as nat, t);
            if let Ok((m, rest)) = tail {
                assert(content_ids_view(out@.push(id)) == content_ids_view(out@).push(id@));
                assert(content_ids_view(out@).push(id@) + rest == content_ids_view(out@) + (seq![
                    id@,
                ] + rest));
            }
        }
        out.push(id);
        at = next;
        i += 1;
    }
    assert(content_ids_view(out@) + Seq::<ContentIdView>::empty() == content_ids_view(out@));
    Ok((at, out))
}

/// Reads the content identifiers that follow a prefix table, up to the end of the input.
fn parse_ids_section(input: &[u8], pos: usize, prefixes: &Vec<String>) -> (r: Result<
    Vec<ContentId>,
    DecodeError,
>)
    requires
        pos <= input.len(),
    ensures
        match r {
            Ok(v) => parse_ids_section_spec(input@.skip(pos as int), strings_view(prefixes@))
                == Ok::<Seq<ContentIdView>, DecodeFailure>(content_ids_view(v@)),
            Err(e) => parse_ids_section_spec(input@.skip(pos as int), strings_view(prefixes@))
                == Err::<Seq<ContentIdView>, DecodeFailure>(e.failure()) && e.limits_are_constants(),
        },
{
    let (p1, count) = parse_varint_at(input, pos)?;
    if count > MAX_CONTENT_IDS {
        return Err(DecodeError::TooManyContentIds { limit: MAX_CONTENT_IDS });
    }
    proof {
        lemma_skip_skip(input@, pos as int, p1 - pos);
    }
    let (p2, content_ids) = parse_content_ids(input, p1, count as usize, prefixes)?;
    proof {
        lemma_skip_skip(input@, p1 as int, p2 - p1);
        lemma_skip_skip(input@.skip(pos as int), p1 - pos, p2 - p1);
    }
    if p2 < input.len() {
        return Err(DecodeError::TrailingBytes);
    }
    Ok(content_ids)
}

/// Reads what follows the prefix count, up to the end of the input.
fn parse_content_section(input: &[u8], pos: usize, prefix_count: u8) -> (r: Result<
    Vec<ContentId>,
    DecodeError,
>)
    requires
        pos <= input.len(),
    ensures
        match r {
            Ok(v) => parse_content_section_spec(input@.skip(pos as int), prefix_count) == Ok::<
                Seq<ContentIdView>,
                DecodeFailure,
            >(content_ids_view(v@)),
            Err(e) => parse_content_section_spec(input@.skip(pos as int), prefix_count) == Err::<
                Seq<ContentIdView>,
                DecodeFailure,
            >(e.failure()) && e.limits_are_constants(),
        },
{
    if prefix_count == 0 {
        if pos < input.len() {
            return Err(DecodeError::TrailingBytes);
        }
        let none: Vec<ContentId> = Vec::new();
        assert(content_ids_view(none@) == Seq::<ContentIdView>::empty());
        return Ok(none);
    }
    let (p1, prefixes) = parse_prefixes(input, pos, prefix_count as usize)?;
    proof {
        lemma_skip_skip(input@, pos as int, p1 - pos);
    }
    parse_ids_section(input, p1, &prefixes)
}

/// Reads a whole binary record, which must end where the record does.
pub fn decode_binary(bytes: &[u8]) -> (r: Result<ShareStateV1, DecodeError>)
    ensures
        match r {
            Ok(v) => decode_binary_spec(bytes@) == Ok::<ShareStateV1View, DecodeFailure>(v@),
            Err(e) => decode_binary_spec(bytes@) == Err::<ShareStateV1View, DecodeFailure>(
                e.failure(),
            ) && e.limits_are_constants(),
        },
{
    assert(bytes@.skip(0) == bytes@);
    let (p1, search) = parse_search_state(bytes, 0)?;
    let (p2, prefix_count) = parse_u8(bytes, p1)?;
    proof {
        lemma_skip_skip(bytes@, p1 as int, p2 - p1);
    }
    let content_ids = parse_content_section(bytes, p2, prefix_count)?;
    Ok(ShareStateV1 { search, content_ids })
}

// ---------------------------------------------------------------------------
// Reading back what was written
// ---------------------------------------------------------------------------

proof fn lemma_string_roundtrip(c: Seq<char>, rest: Seq<u8>)
    ensures
        parse_string_spec(string_field_bytes(c) + rest) == Ok::<(nat, Seq<char>), DecodeFailure>(
            (string_field_bytes(c).len(), c),
        ),
{
    broadcast use vstd::utf8::encode_utf8_valid_utf8, vstd::utf8::encode_utf8_decode_utf8;

    let e = encode_utf8(c);
    wire::lemma_bytes_roundtrip(e, rest);
    assert(string_field_bytes(c) + rest == escape_bytes(e) + seq![0u8] + rest);
}

proof fn lemma_varint_field_roundtrip(v: u64, rest: Seq<u8>)
    ensures
        parse_varint_field(varint_bytes(v as nat) + rest) == Ok::<(nat, u64), DecodeFailure>(
            (varint_bytes(v as nat).len(), v),
        ),
{
    wire::lemma_varint_roundtrip(v, rest);
}

proof fn lemma_optional_varint_roundtrip(v: Option<u64>, rest: Seq<u8>)
    ensures
        parse_optional_varint_spec(optional_varint_bytes(v) + rest, v is Some) == Ok::<
            (nat, Option<u64>),
            DecodeFailure,
        >((optional_varint_bytes(v).len(), v)),
{
    match v {
        Some(x) => lemma_varint_field_roundtrip(x, rest),
        None => {},
    }
}

proof fn lemma_optional_timestamp_roundtrip(v: Option<i64>, rest: Seq<u8>)
    requires
        v matches Some(t) ==> valid_timestamp(t as int),
    ensures
        parse_optional_timestamp_spec(optional_timestamp_bytes(v) + rest, v is Some) == Ok::<
            (nat, Option<i64>),
            DecodeFailure,
        >((optional_timestamp_bytes(v).len(), v)),
{
    match v {
        Some(t) => {
            let z = zigzag(t as int);
            assert(0 <= z <= u64::MAX);
            lemma_varint_field_roundtrip(z as u64, rest);
            wire::lemma_zigzag_roundtrip(t as int);
        },
        None => {},
    }
}

proof fn lemma_flag_bits(a: u8, b: u8, c: u8, d: u8)
    requires
        a <= 1,
        b <= 1,
        c <= 1,
        d <= 1,
    ensures
        ((a + 2 * b + 4 * c + 8 * d) as u8 & 1 != 0) == (a == 1),
        ((a + 2 * b + 4 * c + 8 * d) as u8 & 2 != 0) == (b == 1),
        ((a + 2 * b + 4 * c + 8 * d) as u8 & 4 != 0) == (c == 1),
        ((a + 2 * b + 4 * c + 8 * d) as u8 & 8 != 0) == (d == 1),
{
    assert(a <= 1 && b <= 1 && c <= 1 && d <= 1 ==> {
        &&& ((a + 2 * b + 4 * c + 8 * d) as u8 & 1 != 0) == (a == 1)
        &&& ((a + 2 * b + 4 * c + 8 * d) as u8 & 2 != 0) == (b == 1)
        &&& ((a + 2 * b + 4 * c + 8 * d) as u8 & 4 != 0) == (c == 1)
        &&& ((a + 2 * b + 4 * c + 8 * d) as u8 & 8 != 0) == (d == 1)
    }) by (bit_vector);
}

/// The flags byte announces exactly the bounds that are present.
proof fn lemma_flags_of(s: SearchStateV1View)
    ensures
        (flags_of(s) & 1 != 0) == (s.view_min is Some),
        (flags_of(s) & 2 != 0) == (s.view_max is Some),
        (flags_of(s) & 4 != 0) == (s.uploaded_since is Some),
        (flags_of(s) & 8 != 0) == (s.uploaded_until is Some),
{
    let a: u8 = if s.view_min is Some { 1 } else { 0 };
    let b: u8 = if s.view_max is Some { 1 } else { 0 };
    let c: u8 = if s.uploaded_since is Some { 1 } else { 0 };
    let d: u8 = if s.uploaded_until is Some { 1 } else { 0 };
    lemma_flag_bits(a, b, c, d);
    assert(flags_of(s) == (a + 2 * b + 4 * c + 8 * d) as u8);
}

/// Whether the timestamps of the search conditions lie in the range of
/// `time::OffsetDateTime`.
pub open spec fn search_timestamps_valid(s: SearchStateV1View) -> bool {
    &&& s.uploaded_since matches Some(t) ==> valid_timestamp(t as int)
    &&& s.uploaded_until matches Some(t) ==> valid_timestamp(t as int)
}

proof fn lemma_search_head_roundtrip(s: SearchStateV1View, rest: Seq<u8>)
    ensures
        ({
            let a1 = string_field_bytes(s.tag);
            let a2 = varint_bytes(s.result_count as nat);
            parse_search_head_spec(a1 + (a2 + (seq![flags_of(s)] + rest))) == Ok::<
                (nat, (Seq<char>, u64, u8)),
                DecodeFailure,
            >(((a1.len() + a2.len() + 1) as nat, (s.tag, s.result_count, flags_of(s))))
        }),
{
    let a1 = string_field_bytes(s.tag);
    let a2 = varint_bytes(s.result_count as nat);
    let f = flags_of(s);
    let all = a1 + (a2 + (seq![f] + rest));
    lemma_string_roundtrip(s.tag, a2 + (seq![f] + rest));
    assert(all.skip(a1.len() as int) =~= a2 + (seq![f] + rest));
    lemma_varint_field_roundtrip(s.result_count, seq![f] + rest);
    assert((a2 + (seq![f] + rest)).skip(a2.len() as int) =~= seq![f] + rest);
}

proof fn lemma_view_bounds_roundtrip(s: SearchStateV1View, rest: Seq<u8>)
    ensures
        ({
            let b1 = optional_varint_bytes(s.view_min);
            let b2 = optional_varint_bytes(s.view_max);
            parse_view_bounds_spec(b1 + (b2 + rest), flags_of(s)) == Ok::<
                (nat, (Option<u64>, Option<u64>)),
                DecodeFailure,
            >(((b1.len() + b2.len()) as nat, (s.view_min, s.view_max)))
        }),
{
    let b1 = optional_varint_bytes(s.view_min);
    let b2 = optional_varint_bytes(s.view_max);
    lemma_flags_of(s);
    lemma_optional_varint_roundtrip(s.view_min, b2 + rest);
    assert((b1 + (b2 + rest)).skip(b1.len() as int) =~= b2 + rest);
    lemma_optional_varint_roundtrip(s.view_max, rest);
}

proof fn lemma_time_bounds_roundtrip(s: SearchStateV1View, rest: Seq<u8>)
    requires
        search_timestamps_valid(s),
    ensures
        ({
            let c1 = optional_timestamp_bytes(s.uploaded_since);
            let c2 = optional_timestamp_bytes(s.uploaded_until);
            parse_time_bounds_spec(c1 + (c2 + rest), flags_of(s)) == Ok::<
                (nat, (Option<i64>, Option<i64>)),
                DecodeFailure,
            >(((c1.len() + c2.len()) as nat, (s.uploaded_since, s.uploaded_until)))
        }),
{
    let c1 = optional_timestamp_bytes(s.uploaded_since);
    let c2 = optional_timestamp_bytes(s.uploaded_until);
    lemma_flags_of(s);
    lemma_optional_timestamp_roundtrip(s.uploaded_since, c2 + rest);
    assert((c1 + (c2 + rest)).skip(c1.len() as int) =~= c2 + rest);
    lemma_optional_timestamp_roundtrip(s.uploaded_until, rest);
}

#[verifier::rlimit(60)]
proof fn lemma_search_state_roundtrip(s: SearchStateV1View, rest: Seq<u8>)
    requires
        search_timestamps_valid(s),
    ensures
        parse_search_state_spec(search_state_bytes(s) + rest) == Ok::<
            (nat, SearchStateV1View),
            DecodeFailure,
        >((search_state_bytes(s).len(), s)),
{
    let a1 = string_field_bytes(s.tag);
    let a2 = varint_bytes(s.result_count as nat);
    let f = flags_of(s);
    let b1 = optional_varint_bytes(s.view_min);
    let b2 = optional_varint_bytes(s.view_max);
    let c1 = optional_timestamp_bytes(s.uploaded_since);
    let c2 = optional_timestamp_bytes(s.uploaded_until);
    let tail_c = c1 + (c2 + rest);
    let tail_b = b1 + (b2 + tail_c);
    let all = a1 + (a2 + (seq![f] + tail_b));
    assert(search_state_bytes(s) + rest =~= all);
    lemma_search_head_roundtrip(s, tail_b);
    let n1 = (a1.len() + a2.len() + 1) as nat;
    assert(all.skip(n1 as int) =~= tail_b);
    lemma_view_bounds_roundtrip(s, tail_c);
    let n2 = (b1.len() + b2.len()) as nat;
    assert(tail_b.skip(n2 as int) =~= tail_c);
    lemma_time_bounds_roundtrip(s, rest);
    let n3 = (c1.len() + c2.len()) as nat;
    assert(search_state_bytes(s).len() == n1 + n2 + n3);
}

proof fn lemma_prefix_table_bytes_front(t: Seq<Seq<char>>)
    requires
        t.len() > 0,
    ensures
        prefix_table_bytes(t) == string_field_bytes(t[0]) + prefix_table_bytes(t.drop_first()),
    decreases t.len(),
{
    if t.len() == 1 {
        assert(t.drop_last() == Seq::<Seq<char>>::empty());
        assert(t.drop_first() == Seq::<Seq<char>>::empty());
        assert(prefix_table_bytes(t.drop_first()) == Seq::<u8>::empty());
        assert(prefix_table_bytes(Seq::<Seq<char>>::empty()) == Seq::<u8>::empty());
        assert(prefix_table_bytes(t) =~= string_field_bytes(t[0]) + Seq::<u8>::empty());
    } else {
        lemma_prefix_table_bytes_front(t.drop_last());
        assert(t.drop_last().drop_first() == t.drop_first().drop_last());
        assert(t.drop_first().last() == t.last());
        assert(t.drop_last()[0] == t[0]);
    }
}

proof fn lemma_prefixes_roundtrip(t: Seq<Seq<char>>, rest: Seq<u8>)
    ensures
        parse_prefixes_spec(prefix_table_bytes(t) + rest, t.len()) == Ok::<
            (nat, Seq<Seq<char>>),
            DecodeFailure,
        >((prefix_table_bytes(t).len(), t)),
    decreases t.len(),
{
    if t.len() == 0 {
        assert(t =~= Seq::<Seq<char>>::empty());
    } else {
        lemma_prefix_table_bytes_front(t);
        let first = string_field_bytes(t[0]);
        let others = prefix_table_bytes(t.drop_first());
        lemma_string_roundtrip(t[0], others + rest);
        assert(prefix_table_bytes(t) + rest =~= first + (others + rest));
        assert((first + (others + rest)).skip(first.len() as int) =~= others + rest);
        lemma_prefixes_roundtrip(t.drop_first(), rest);
        assert(seq![t[0]] + t.drop_first() =~= t);
    }
}

proof fn lemma_content_ids_bytes_front(t: Seq<Seq<char>>, ids: Seq<ContentIdView>)
    requires
        ids.len() > 0,
    ensures
        content_ids_bytes(t, ids) == content_id_bytes(t, ids[0]) + content_ids_bytes(
            t,
            ids.drop_first(),
        ),
    decreases ids.len(),
{
    if ids.len() == 1 {
        assert(ids.drop_last() == Seq::<ContentIdView>::empty());
        assert(ids.drop_first() == Seq::<ContentIdView>::empty());
        assert(content_ids_bytes(t, Seq::<ContentIdView>::empty()) == Seq::<u8>::empty());
        assert(content_ids_bytes(t, ids) =~= content_id_bytes(t, ids[0]) + Seq::<u8>::empty());
    } else {
        lemma_content_ids_bytes_front(t, ids.drop_last());
        assert(ids.drop_last().drop_first() == ids.drop_first().drop_last());
        assert(ids.drop_first().last() == ids.last());
        assert(ids.drop_last()[0] == ids[0]);
    }
}

/// Whether every identifier's prefix is in the table, which holds at most 100 prefixes,
/// each once.
pub open spec fn table_covers(t: Seq<Seq<char>>, ids: Seq<ContentIdView>) -> bool {
    &&& t.len() <= MAX_CONTENT_IDS
    &&& forall|a: int, b: int| 0 <= a < b < t.len() ==> t[a] != t[b]
    &&& forall|i: int| 0 <= i < ids.len() ==> t.contains(#[trigger] ids[i].prefix)
}

#[verifier::rlimit(30)]
proof fn lemma_content_ids_roundtrip(t: Seq<Seq<char>>, ids: Seq<ContentIdView>, rest: Seq<u8>)
    requires
        table_covers(t, ids),
    ensures
        parse_content_ids_spec(content_ids_bytes(t, ids) + rest, ids.len(), t) == Ok::<
            (nat, Seq<ContentIdView>),
            DecodeFailure,
        >((content_ids_bytes(t, ids).len(), ids)),
    decreases ids.len(),
{
    if ids.len() == 0 {
        assert(ids =~= Seq::<ContentIdView>::empty());
    } else {
        lemma_content_ids_bytes_front(t, ids);
        let id = ids[0];
        let code = prefix_code(t, id.prefix);
        assert(t.contains(ids[0].prefix));
        assert(0 <= code < t.len() && t[code] == id.prefix);
        let cb = varint_bytes(code as nat);
        assert(cb == seq![code as u8]);
        let nb = varint_bytes(id.number as nat);
        let others = content_ids_bytes(t, ids.drop_first());
        let all = cb + (nb + (others + rest));
        assert(content_ids_bytes(t, ids) + rest =~= all);
        assert(all[0] == code as u8);
        assert(all.skip(1) =~= nb + (others + rest));
        lemma_varint_field_roundtrip(id.number, others + rest);
        assert(parse_content_id_spec(all, t) == Ok::<(nat, ContentIdView), DecodeFailure>(
            ((1 + nb.len()) as nat, id),
        ));
        assert(all.skip((1 + nb.len()) as int) =~= others + rest);
        assert forall|i: int| 0 <= i < ids.drop_first().len() implies t.contains(
            #[trigger] ids.drop_first()[i].prefix,
        ) by {
            assert(ids.drop_first()[i] == ids[i + 1]);
        }
        lemma_content_ids_roundtrip(t, ids.drop_first(), rest);
        assert(seq![id] + ids.drop_first() =~= ids);
    }
}

proof fn lemma_ids_section_roundtrip(t: Seq<Seq<char>>, ids: Seq<ContentIdView>)
    requires
        ids.len() <= MAX_CONTENT_IDS,
        table_covers(t, ids),
    ensures
        parse_ids_section_spec(varint_bytes(ids.len()) + content_ids_bytes(t, ids), t) == Ok::<
            Seq<ContentIdView>,
            DecodeFailure,
        >(ids),
{
    let lb = varint_bytes(ids.len());
    let ib = content_ids_bytes(t, ids);
    lemma_varint_field_roundtrip(ids.len() as u64, ib);
    assert((lb + ib).skip(lb.len() as int) =~= ib);
    lemma_content_ids_roundtrip(t, ids, Seq::<u8>::empty());
    assert(ib + Seq::<u8>::empty() =~= ib);
    assert(ib.skip(ib.len() as int) =~= Seq::<u8>::empty());
}

proof fn lemma_content_section_roundtrip(t: Seq<Seq<char>>, ids: Seq<ContentIdView>)
    requires
        ids.len() <= MAX_CONTENT_IDS,
        1 <= t.len(),
        table_covers(t, ids),
    ensures
        parse_content_section_spec(
            prefix_table_bytes(t) + (varint_bytes(ids.len()) + content_ids_bytes(t, ids)),
            t.len() as u8,
        ) == Ok::<Seq<ContentIdView>, DecodeFailure>(ids),
{
    let pt = prefix_table_bytes(t);
    let rest = varint_bytes(ids.len()) + content_ids_bytes(t, ids);
    lemma_prefixes_roundtrip(t, rest);
    assert((pt + rest).skip(pt.len() as int) =~= rest);
    lemma_ids_section_roundtrip(t, ids);
}

/// Decoding an encoded binary record gives back the share state, for every prefix table
/// that encoding may choose, as long as the timestamps lie in the range of
/// `time::OffsetDateTime` and there are at most [`MAX_CONTENT_IDS`] content identifiers.
pub proof fn lemma_binary_roundtrip(s: ShareStateV1View, t: Seq<Seq<char>>)
    requires
        s.content_ids.len() <= MAX_CONTENT_IDS,
        valid_prefix_table(s.content_ids, t),
        search_timestamps_valid(s.search),
    ensures
        decode_binary_spec(encode_binary_spec(s, t)) == Ok::<ShareStateV1View, DecodeFailure>(s),
{
    let head = search_state_bytes(s.search);
    let ids = s.content_ids;
    if ids.len() == 0 {
        let tail = seq![0u8];
        lemma_search_state_roundtrip(s.search, tail);
        assert(encode_binary_spec(s, t) == head + tail);
        assert((head + tail).skip(head.len() as int) =~= tail);
        assert(tail.skip(1) =~= Seq::<u8>::empty());
        assert(ids =~= Seq::<ContentIdView>::empty());
    } else {
        assert(t.contains(ids[0].prefix));
        let after_count = prefix_table_bytes(t) + (varint_bytes(ids.len()) + content_ids_bytes(
            t,
            ids,
        ));
        let tail = seq![t.len() as u8] + after_count;
        assert(encode_binary_spec(s, t) =~= head + tail);
        lemma_search_state_roundtrip(s.search, tail);
        assert((head + tail).skip(head.len() as int) =~= tail);
        assert(tail.skip(1) =~= after_count);
        lemma_content_section_roundtrip(t, ids);
    }
}

// ---------------------------------------------------------------------------
// The text form
// ---------------------------------------------------------------------------

/// Decoding a text: the version character, then URL-safe Base64 of a Brotli stream of
/// a binary record of at most [`MAX_DECOMPRESSED_SIZE`] bytes.
pub open spec fn decode_spec(text: Seq<char>) -> Result<ShareStateV1View, DecodeFailure> {
    if text.len() == 0 {
        Err(DecodeFailure::Empty)
    } else if text[0] != VERSION {
        Err(DecodeFailure::UnsupportedVersion(text[0]))
    } else {
        match base64_url_decoded(text.drop_first()) {
            None => Err(DecodeFailure::Base64),
            Some(compressed) => match brotli_decompressed(
                compressed,
                BROTLI_BUFFER_SIZE,
                (MAX_DECOMPRESSED_SIZE + 1) as u64,
            ) {
                None => Err(DecodeFailure::Decompress),
                Some(raw) => if raw.len() > MAX_DECOMPRESSED_SIZE {
                    Err(DecodeFailure::DecompressedSizeLimitExceeded)
                } else {
                    decode_binary_spec(raw)
                },
            },
        }
    }
}

/// The text that encoding writes for a binary record.
pub open spec fn encode_text_spec(binary: Seq<u8>) -> Seq<char> {
    seq![VERSION] + base64_url_encoded(brotli_compressed(binary, BROTLI_QUALITY))
}

/// Decompresses `bytes`, refusing a result longer than [`MAX_DECOMPRESSED_SIZE`] bytes.
fn brotli_decompress(bytes: &[u8]) -> (r: Result<Vec<u8>, DecodeError>)
    ensures
        match r {
            Ok(raw) => brotli_decompressed(bytes@, BROTLI_BUFFER_SIZE, (MAX_DECOMPRESSED_SIZE + 1) as u64)
                == Some(raw@) && raw.len() <= MAX_DECOMPRESSED_SIZE,
            Err(e) => e.limits_are_constants() && match brotli_decompressed(
                bytes@,
                BROTLI_BUFFER_SIZE,
                (MAX_DECOMPRESSED_SIZE + 1) as u64,
            ) {
                None => e.failure() == DecodeFailure::Decompress,
                Some(raw) => raw.len() > MAX_DECOMPRESSED_SIZE && e.failure()
                    == DecodeFailure::DecompressedSizeLimitExceeded,
            },
        },
{
    match brotli_decompress_up_to(bytes, BROTLI_BUFFER_SIZE, MAX_DECOMPRESSED_SIZE as u64 + 1) {
        Err(e) => Err(DecodeError::Decompress(e)),
        Ok(output) => {
            if output.len() > MAX_DECOMPRESSED_SIZE {
                Err(DecodeError::DecompressedSizeLimitExceeded { limit: MAX_DECOMPRESSED_SIZE })
            } else {
                Ok(output)
            }
        },
    }
}

/// Encodes a share state as text: the version character, then URL-safe Base64 without
/// padding of the Brotli stream of its binary record. Succeeds exactly when there are at
/// most [`MAX_CONTENT_IDS`] content identifiers.
///
/// Decoding the text gives back the state when its timestamps lie in the range of
/// `time::OffsetDateTime` and its binary record is at most [`MAX_DECOMPRESSED_SIZE`]
/// bytes long; a longer record is refused with
/// [`DecodeError::DecompressedSizeLimitExceeded`].
pub fn encode(state: &ShareStateV1) -> (r: Result<String, EncodeError>)
    ensures
        r is Ok <==> state.content_ids.len() <= MAX_CONTENT_IDS,
        r matches Ok(text) ==> text@.len() >= 1 && text@[0] == VERSION && forall|i: int|
            1 <= i < text@.len() ==> url_safe_base64_char(#[trigger] text@[i]),
        match r {
            Ok(text) => state.content_ids.len() <= MAX_CONTENT_IDS && exists|t: Seq<Seq<char>>|
                {
                    &&& valid_prefix_table(state@.content_ids, t)
                    &&& text@ == encode_text_spec(encode_binary_spec(state@, t))
                    &&& encode_binary_spec(state@, t).len() <= MAX_DECOMPRESSED_SIZE
                        && search_timestamps_valid(state@.search) ==> decode_spec(text@) == Ok::<
                        ShareStateV1View,
                        DecodeFailure,
                    >(state@)
                    &&& encode_binary_spec(state@, t).len() > MAX_DECOMPRESSED_SIZE ==> decode_spec(
                        text@,
                    ) == Err::<ShareStateV1View, DecodeFailure>(
                        DecodeFailure::DecompressedSizeLimitExceeded,
                    )
                },
            Err(e) => e == EncodeError::TooManyContentIds,
        },
{
    let raw = encode_binary(state)?;
    let ghost t = choose|t: Seq<Seq<char>>|
        valid_prefix_table(state@.content_ids, t) && raw@ == encode_binary_spec(state@, t);
    let compressed = match brotli_compress(raw.as_slice(), BROTLI_QUALITY) {
        Ok(c) => c,
        Err(_) => return Err(EncodeError::Compress),
    };
    let payload = base64_url_encode(compressed.as_slice());
    let mut text = String::new();
    crate::text::push_char(&mut text, VERSION);
    crate::text::append_chars(&mut text, payload.as_str());
    proof {
        let limit = (MAX_DECOMPRESSED_SIZE + 1) as u64;
        assert(brotli_decompressed(compressed@, BROTLI_BUFFER_SIZE, limit) == Some(
            bytes_up_to(raw@, limit),
        ));
        assert(text@.drop_first() == payload@);
        lemma_base64_url_encoded_chars(compressed@);
        lemma_base64_url_roundtrip(compressed@);
        assert forall|i: int| 1 <= i < text@.len() implies url_safe_base64_char(#[trigger] text@[i]) by {
            assert(text@[i] == payload@[i - 1]);
        }
        if raw@.len() <= MAX_DECOMPRESSED_SIZE {
            assert(bytes_up_to(raw@, limit) == raw@);
            if search_timestamps_valid(state@.search) {
                lemma_binary_roundtrip(state@, t);
            }
        } else {
            assert(bytes_up_to(raw@, limit).len() == limit);
        }
    }
    Ok(text)
}

/// Decodes a text that [`encode`] wrote.
pub fn decode(encoded: &str) -> (r: Result<ShareStateV1, DecodeError>)
    ensures
        match r {
            Ok(v) => decode_spec(encoded@) == Ok::<ShareStateV1View, DecodeFailure>(v@),
            Err(e) => decode_spec(encoded@) == Err::<ShareStateV1View, DecodeFailure>(e.failure())
                && e.limits_are_constants(),
        },
{
    let len = encoded.unicode_len();
    if len == 0 {
        return Err(DecodeError::Empty);
    }
    let version = encoded.get_char(0);
    if version != VERSION {
        return Err(DecodeError::UnsupportedVersion(version));
    }
    let payload = encoded.substring_char(1, len);
    assert(payload@ == encoded@.drop_first());
    let compressed = match base64_url_decode(payload) {
        Ok(c) => c,
        Err(e) => return Err(DecodeError::Base64(e)),
    };
    let raw = brotli_decompress(compressed.as_slice())?;
    decode_binary(raw.as_slice())
}

/// A prefix used at least once occurs in the sequence.
proof fn lemma_prefix_count_positive_used(ids: Seq<ContentIdView>, p: Seq<char>)
    ensures
        prefix_count(ids, p) > 0 ==> exists|j: int| 0 <= j < ids.len() && ids[j].prefix == p,
    decreases ids.len(),
{
    if ids.len() > 0 {
        lemma_prefix_count_positive_used(ids.drop_last(), p);
        if prefix_count(ids.drop_last(), p) > 0 {
            let j = choose|j: int| 0 <= j < ids.drop_last().len() && ids.drop_last()[j].prefix == p;
            assert(ids[j] == ids.drop_last()[j]);
        } else if prefix_count(ids, p) > 0 {
            assert(ids[ids.len() - 1].prefix == p);
        }
    }
}

} // verus!
