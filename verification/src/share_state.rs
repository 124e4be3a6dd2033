//! Shareable search state and its compact text encoding.

use vstd::prelude::*;

use crate::text::{
    all_ascii_digits, chars_of, decimal_text, is_ascii_digit, lemma_parse_u64_decimal_text,
    parse_u64, parse_u64_spec, slice_from, slice_to, string_from_chars, write_decimal,
};
use v1::{
    DecodeFailure, SearchStateV1, SearchStateV1View, ShareStateV1, ShareStateV1View,
};

pub mod v1;

verus! {

/// A video identifier such as `sm9`: a non-numeric prefix and a number.
#[derive(Clone, Debug, PartialEq, Eq)]
pub struct ContentId {
    pub prefix: String,
    pub number: u64,
}

/// A [`ContentId`] seen as mathematical values.
pub struct ContentIdView {
    pub prefix: Seq<char>,
    pub number: u64,
}

impl View for ContentId {
    type V = ContentIdView;

    open spec fn view(&self) -> ContentIdView {
        ContentIdView { prefix: self.prefix@, number: self.number }
    }
}

/// The views of a sequence of content identifiers.
pub open spec fn content_ids_view(ids: Seq<ContentId>) -> Seq<ContentIdView> {
    ids.map_values(|c: ContentId| c@)
}

/// Why a text is not a content identifier.
#[derive(Debug, Clone, Copy, PartialEq, Eq, Structural)]
pub enum ContentIdError {
    /// The text holds no ASCII digit.
    NoNumericPart,
    /// The text starts with a digit.
    NoPrefix,
    /// What follows the prefix is not a `u64` in decimal.
    InvalidNumber,
}

impl ContentIdError {
    /// The message that describes the error.
    pub fn message(&self) -> (r: &'static str)
        ensures
            r@ == match self {
                ContentIdError::NoNumericPart => "contentId must contain a numeric part"@,
                ContentIdError::NoPrefix => "contentId must contain a prefix"@,
                ContentIdError::InvalidNumber => "contentId numeric part must be an unsigned integer"@,
            },
    {
        match self {
            ContentIdError::NoNumericPart => "contentId must contain a numeric part",
            ContentIdError::NoPrefix => "contentId must contain a prefix",
            ContentIdError::InvalidNumber => "contentId numeric part must be an unsigned integer",
        }
    }
}

/// The index of the first ASCII digit of `s` at or after `i`.
pub open spec fn first_digit_from(s: Seq<char>, i: nat) -> Option<nat>
    decreases s.len() - i,
{
    if i >= s.len() {
        None
    } else if is_ascii_digit(s[i as int]) {
        Some(i)
    } else {
        first_digit_from(s, i + 1)
    }
}

/// Reading a content identifier: the prefix runs up to the first ASCII digit and must
/// not be empty; the rest must be a `u64` as `u64::from_str` reads it.
pub open spec fn parse_content_id_spec(s: Seq<char>) -> Result<ContentIdView, ContentIdError> {
    match first_digit_from(s, 0) {
        None => Err(ContentIdError::NoNumericPart),
        Some(k) => if k == 0 {
            Err(ContentIdError::NoPrefix)
        } else {
            match parse_u64_spec(s.skip(k as int)) {
                None => Err(ContentIdError::InvalidNumber),
                Some(n) => Ok(ContentIdView { prefix: s.take(k as int), number: n }),
            }
        },
    }
}

/// The text of a content identifier: the prefix, then the number in decimal.
pub open spec fn content_id_text(id: ContentIdView) -> Seq<char> {
    id.prefix + decimal_text(id.number as nat)
}

impl ContentId {
    /// Reads a content identifier such as `sm34594493`.
    pub fn parse(s: &str) -> (r: Result<ContentId, ContentIdError>)
        ensures
            match r {
                Ok(id) => parse_content_id_spec(s@) == Ok::<ContentIdView, ContentIdError>(id@),
                Err(e) => parse_content_id_spec(s@) == Err::<ContentIdView, ContentIdError>(e),
            },
    {
        let cs = chars_of(s);
        let mut k: usize = 0;
        while k < cs.len() && !('0' <= cs[k] && cs[k] <= '9')
            invariant
                k <= cs.len(),
                cs@ == s@,
                first_digit_from(cs@, 0) == first_digit_from(cs@, k as nat),
            decreases cs.len() - k,
        {
            k += 1;
        }
        if k == cs.len() {
            return Err(ContentIdError::NoNumericPart);
        }
        if k == 0 {
            return Err(ContentIdError::NoPrefix);
        }
        let digits = slice_from(&cs, k);
        match parse_u64(digits.as_slice()) {
            None => Err(ContentIdError::InvalidNumber),
            Some(number) => {
                let prefix = string_from_chars(slice_to(&cs, k).as_slice());
                Ok(ContentId { prefix, number })
            },
        }
    }

    /// The text of this identifier: the prefix, then the number in decimal.
    pub fn to_string(&self) -> (r: String)
        ensures
            r@ == content_id_text(self@),
    {
        let mut out = self.prefix.clone();
        write_decimal(&mut out, self.number);
        out
    }
}


/// Reading the text of a content identifier gives it back, when its prefix is not empty
/// and holds no ASCII digit.
pub proof fn lemma_content_id_text_roundtrip(id: ContentIdView)
    requires
        id.prefix.len() > 0,
        forall|i: int| 0 <= i < id.prefix.len() ==> !is_ascii_digit(#[trigger] id.prefix[i]),
    ensures
        parse_content_id_spec(content_id_text(id)) == Ok::<ContentIdView, ContentIdError>(id),
{
    let s = content_id_text(id);
    let k = id.prefix.len();
    crate::text::lemma_decimal_text(id.number as nat);
    lemma_parse_u64_decimal_text(id.number);
    assert(is_ascii_digit(decimal_text(id.number as nat)[0]));
    assert(s[k as int] == decimal_text(id.number as nat)[0]);
    lemma_first_digit_at(s, k, 0);
    assert(s.skip(k as int) == decimal_text(id.number as nat));
    assert(s.take(k as int) == id.prefix);
}

proof fn lemma_first_digit_at(s: Seq<char>, k: nat, i: nat)
    requires
        k < s.len(),
        is_ascii_digit(s[k as int]),
        i <= k,
        forall|j: int| 0 <= j < k ==> !is_ascii_digit(#[trigger] s[j]),
    ensures
        first_digit_from(s, i) == Some(k),
    decreases k - i,
{
    if i < k {
        lemma_first_digit_at(s, k, i + 1);
    }
}

/// Search conditions of a shared state; times are Unix timestamps in seconds.
#[derive(Clone, Debug, PartialEq, Eq)]
pub struct SearchState {
    pub tag: String,
    pub uploaded_since: Option<i64>,
    pub uploaded_until: Option<i64>,
    pub view_min: Option<u64>,
    pub view_max: Option<u64>,
    pub result_count: u64,
}

impl View for SearchState {
    type V = SearchStateV1View;

    open spec fn view(&self) -> SearchStateV1View {
        SearchStateV1View {
            tag: self.tag@,
            uploaded_since: self.uploaded_since,
            uploaded_until: self.uploaded_until,
            view_min: self.view_min,
            view_max: self.view_max,
            result_count: self.result_count,
        }
    }
}

/// A shared state: search conditions and the videos found.
#[derive(Clone, Debug, PartialEq, Eq)]
pub struct ShareState {
    pub search: SearchState,
    pub content_ids: Vec<ContentId>,
}

impl View for ShareState {
    type V = ShareStateV1View;

    open spec fn view(&self) -> ShareStateV1View {
        ShareStateV1View { search: self.search@, content_ids: content_ids_view(self.content_ids@) }
    }
}

impl From<SearchState> for SearchStateV1 {
    fn from(value: SearchState) -> (r: SearchStateV1) {
        SearchStateV1 {
            tag: value.tag,
            uploaded_since: value.uploaded_since,
            uploaded_until: value.uploaded_until,
            view_min: value.view_min,
            view_max: value.view_max,
            result_count: value.result_count,
        }
    }
}

impl vstd::std_specs::convert::FromSpecImpl<SearchState> for SearchStateV1 {
    open spec fn obeys_from_spec() -> bool {
        true
    }

    open spec fn from_spec(value: SearchState) -> SearchStateV1 {
        SearchStateV1 {
            tag: value.tag,
            uploaded_since: value.uploaded_since,
            uploaded_until: value.uploaded_until,
            view_min: value.view_min,
            view_max: value.view_max,
            result_count: value.result_count,
        }
    }
}

impl From<SearchStateV1> for SearchState {
    fn from(value: SearchStateV1) -> (r: SearchState) {
        SearchState {
            tag: value.tag,
            uploaded_since: value.uploaded_since,
            uploaded_until: value.uploaded_until,
            view_min: value.view_min,
            view_max: value.view_max,
            result_count: value.result_count,
        }
    }
}

impl vstd::std_specs::convert::FromSpecImpl<SearchStateV1> for SearchState {
    open spec fn obeys_from_spec() -> bool {
        true
    }

    open spec fn from_spec(value: SearchStateV1) -> SearchState {
        SearchState {
            tag: value.tag,
            uploaded_since: value.uploaded_since,
            uploaded_until: value.uploaded_until,
            view_min: value.view_min,
            view_max: value.view_max,
            result_count: value.result_count,
        }
    }
}

impl From<ShareState> for ShareStateV1 {
    fn from(value: ShareState) -> (r: ShareStateV1) {
        ShareStateV1 { search: SearchStateV1::from(value.search), content_ids: value.content_ids }
    }
}

impl vstd::std_specs::convert::FromSpecImpl<ShareState> for ShareStateV1 {
    open spec fn obeys_from_spec() -> bool {
        true
    }

    open spec fn from_spec(value: ShareState) -> ShareStateV1 {
        let s = value.search;
        ShareStateV1 {
            search: SearchStateV1 {
                tag: s.tag,
                uploaded_since: s.uploaded_since,
                uploaded_until: s.uploaded_until,
                view_min: s.view_min,
                view_max: s.view_max,
                result_count: s.result_count,
            },
            content_ids: value.content_ids,
        }
    }
}

impl From<ShareStateV1> for ShareState {
    fn from(value: ShareStateV1) -> (r: ShareState) {
        ShareState { search: SearchState::from(value.search), content_ids: value.content_ids }
    }
}

impl vstd::std_specs::convert::FromSpecImpl<ShareStateV1> for ShareState {
    open spec fn obeys_from_spec() -> bool {
        true
    }

    open spec fn from_spec(value: ShareStateV1) -> ShareState {
        let s = value.search;
        ShareState {
            search: SearchState {
                tag: s.tag,
                uploaded_since: s.uploaded_since,
                uploaded_until: s.uploaded_until,
                view_min: s.view_min,
                view_max: s.view_max,
                result_count: s.result_count,
            },
            content_ids: value.content_ids,
        }
    }
}

/// Why encoding a share state failed.
#[derive(Debug, Clone, Copy, PartialEq, Eq, Structural)]
pub enum EncodeError {
    V1(v1::EncodeError),
}

/// Why decoding a share state failed.
#[derive(Debug)]
pub enum DecodeError {
    V1(v1::DecodeError),
}

impl DecodeError {
    /// The message that describes the error: that of the version's own error.
    pub fn message(&self) -> (r: String)
        ensures
            match self {
                DecodeError::V1(e) => v1::is_message_of(*e, r@),
            },
    {
        match self {
            DecodeError::V1(e) => e.message(),
        }
    }
}

/// Encodes a share state as text, in the current version of the encoding.
pub fn encode(state: ShareState) -> (r: Result<String, EncodeError>)
    ensures
        r is Ok <==> state.content_ids.len() <= v1::MAX_CONTENT_IDS,
        r matches Ok(text) ==> text@.len() >= 1 && text@[0] == v1::VERSION && forall|i: int|
            1 <= i < text@.len() ==> v1::url_safe_base64_char(#[trigger] text@[i]),
        match r {
            Ok(text) => state.content_ids.len() <= v1::MAX_CONTENT_IDS && exists|
                t: Seq<Seq<char>>,
            |
                {
                    &&& v1::valid_prefix_table(state@.content_ids, t)
                    &&& text@ == v1::encode_text_spec(v1::encode_binary_spec(state@, t))
                    &&& v1::encode_binary_spec(state@, t).len() <= v1::MAX_DECOMPRESSED_SIZE
                        && v1::search_timestamps_valid(state@.search) ==> decode_spec(text@)
                        == Ok::<ShareStateV1View, DecodeFailure>(state@)
                },
            Err(EncodeError::V1(e)) => e == v1::EncodeError::TooManyContentIds,
        },
{
    let ghost view = state@;
    let converted = ShareStateV1::from(state);
    assert(converted@ == view);
    match v1::encode(&converted) {
        Ok(text) => Ok(text),
        Err(e) => Err(EncodeError::V1(e)),
    }
}

/// Decoding a text in any supported version.
pub open spec fn decode_spec(text: Seq<char>) -> Result<ShareStateV1View, DecodeFailure> {
    v1::decode_spec(text)
}

/// Decodes a text that [`encode`] wrote.
pub fn decode(encoded: &str) -> (r: Result<ShareState, DecodeError>)
    ensures
        match r {
            Ok(v) => decode_spec(encoded@) == Ok::<ShareStateV1View, DecodeFailure>(v@),
            Err(DecodeError::V1(e)) => decode_spec(encoded@) == Err::<
                ShareStateV1View,
                DecodeFailure,
            >(e.failure()) && e.limits_are_constants(),
        },
{
    match v1::decode(encoded) {
        Ok(state) => {
            let ghost view = state@;
            let converted = ShareState::from(state);
            assert(converted@ == view);
            Ok(converted)
        },
        Err(e) => Err(DecodeError::V1(e)),
    }
}

} // verus!
