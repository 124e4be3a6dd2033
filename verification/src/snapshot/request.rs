//! Requests to the video snapshot API: the JSON filter language, the query string and the
//! HTTP request.

use std::borrow::Cow;

use vstd::prelude::*;

use crate::datetime::{format_rfc3339, rfc3339_formattable, rfc3339_text, DateTime};
use crate::logic::SortDirection;
use crate::snapshot::SearchCriteria;
use crate::text::{append_chars, decimal_text, write_decimal};

verus! {

broadcast use vstd::std_specs::vec::group_vec_axioms;

/// The search endpoint of the snapshot API.
pub const SNAPSHOT_URL: &'static str =
    "https://snapshot.search.nicovideo.jp/api/v2/snapshot/video/contents/search";

/// The fields that every search asks the API to return.
pub const SEARCH_FIELDS: &'static str =
    "contentId,title,viewCounter,commentCounter,mylistCounter,likeCounter,lengthSeconds,thumbnailUrl,tags";

/// The most content ids that one details request asks for.
pub const MAX_DETAILS_IDS: usize = 100;

// ---------------------------------------------------------------------------
// Sorting
// ---------------------------------------------------------------------------

/// A field that search results can be sorted by.
#[derive(Debug, Clone, Copy, PartialEq, Eq, Structural)]
pub enum SortField {
    ViewCounter,
    MylistCounter,
    LengthSeconds,
    StartTime,
    CommentCounter,
    LastCommentTime,
}

/// The API's name of a sort field.
pub open spec fn sort_field_name(f: SortField) -> Seq<char> {
    match f {
        SortField::ViewCounter => "viewCounter"@,
        SortField::MylistCounter => "mylistCounter"@,
        SortField::LengthSeconds => "lengthSeconds"@,
        SortField::StartTime => "startTime"@,
        SortField::CommentCounter => "commentCounter"@,
        SortField::LastCommentTime => "lastCommentTime"@,
    }
}

/// The sign that marks a sort direction: `+` ascending, `-` descending.
pub open spec fn sort_sign(d: SortDirection) -> Seq<char> {
    match d {
        SortDirection::Asc => "+"@,
        SortDirection::Desc => "-"@,
    }
}

fn sort_field_str(f: &SortField) -> (r: &'static str)
    ensures
        r@ == sort_field_name(*f),
{
    match f {
        SortField::ViewCounter => "viewCounter",
        SortField::MylistCounter => "mylistCounter",
        SortField::LengthSeconds => "lengthSeconds",
        SortField::StartTime => "startTime",
        SortField::CommentCounter => "commentCounter",
        SortField::LastCommentTime => "lastCommentTime",
    }
}

/// The `_sort` parameter for a field and a direction: the direction's sign followed by
/// the field's name, as in `+viewCounter`.
pub fn sort_value(sort_field: &SortField, sort_direction: SortDirection) -> (r: String)
    ensures
        r@ == sort_sign(sort_direction) + sort_field_name(*sort_field),
{
    let sign = match sort_direction {
        SortDirection::Asc => "+",
        SortDirection::Desc => "-",
    };
    let mut out = sign.to_owned();
    append_chars(&mut out, sort_field_str(sort_field));
    out
}

// ---------------------------------------------------------------------------
// Scalar values of the filter language
// ---------------------------------------------------------------------------

/// The lowercase hexadecimal digit of `d` (below 16).
pub open spec fn lower_hex_digit(d: int) -> char {
    if d < 10 {
        (d + 48) as char
    } else {
        (d + 87) as char
    }
}

/// How `serde_json` writes one character inside a string: `"` and `\` behind a
/// backslash, backspace, tab, line feed, form feed and carriage return as `\b`, `\t`,
/// `\n`, `\f`, `\r`, any other character below U+0020 as `\u00` and two lowercase
/// hexadecimal digits, and every other character as it is.
pub open spec fn json_char_text(c: char) -> Seq<char> {
    let u = c as u32;
    if c == '"' {
        seq!['\\', '"']
    } else if c == '\\' {
        seq!['\\', '\\']
    } else if u == 0x08 {
        seq!['\\', 'b']
    } else if u == 0x09 {
        seq!['\\', 't']
    } else if u == 0x0A {
        seq!['\\', 'n']
    } else if u == 0x0C {
        seq!['\\', 'f']
    } else if u == 0x0D {
        seq!['\\', 'r']
    } else if u < 0x20 {
        seq!['\\', 'u', '0', '0', lower_hex_digit(u as int / 16), lower_hex_digit(u as int % 16)]
    } else {
        seq![c]
    }
}

/// The characters of `s`, each written as `json_char_text` says.
pub open spec fn json_escaped(s: Seq<char>) -> Seq<char>
    decreases s.len(),
{
    if s.len() == 0 {
        Seq::empty()
    } else {
        json_escaped(s.drop_last()) + json_char_text(s.last())
    }
}

/// The JSON string literal that `serde_json` writes for `s`: the escaped characters in
/// double quotes.
pub open spec fn json_string_literal(s: Seq<char>) -> Seq<char> {
    seq!['"'] + json_escaped(s) + seq!['"']
}

/// Calls `serde_json::to_string` on a string slice. Serializing a `str` goes to
/// `Serializer::serialize_str`, whose only failure is an I/O error of the writer, and
/// `to_string` writes into a `Vec`, so the call succeeds. Its text is the string in
/// quotes, each character escaped by the table `ESCAPE` of `serde_json`'s `ser.rs`, as
/// [`json_string_literal`] states it.
#[verifier::external_body]
fn json_string(s: &str) -> (r: Result<String, serde_json::Error>)
    ensures
        r is Ok,
        r matches Ok(t) ==> t@ == json_string_literal(s@),
{
    serde_json::to_string(s)
}

#[verifier::external_type_specification]
#[verifier::external_body]
pub struct ExJsonError(serde_json::Error);

/// The characters of a borrowed or owned string.
fn cow_str<'b>(c: &'b Cow<'_, str>) -> (r: &'b str)
    ensures
        r@ == c@,
{
    match c {
        Cow::Borrowed(b) => b,
        Cow::Owned(o) => o.as_str(),
    }
}

/// The JSON text of a string value.
fn string_json(s: &str) -> (r: String)
    ensures
        r@ == json_string_literal(s@),
{
    match json_string(s) {
        Ok(t) => t,
        Err(_) => String::new(),
    }
}

/// The JSON text of a number.
fn u64_json(n: u64) -> (r: String)
    ensures
        r@ == decimal_text(n as nat),
{
    let mut out = String::new();
    write_decimal(&mut out, n);
    out
}

/// The JSON text of a point in time: its RFC 3339 form as a JSON string, or `None` where
/// it has none.
pub open spec fn datetime_json(dt: DateTime) -> Option<Seq<char>> {
    if rfc3339_formattable(dt.unix_seconds, dt.nanosecond, dt.offset_seconds) {
        Some(json_string_literal(rfc3339_text(dt.unix_seconds, dt.nanosecond, dt.offset_seconds)))
    } else {
        None
    }
}

fn datetime_json_exec(dt: &DateTime) -> (r: Option<String>)
    ensures
        match r {
            Some(t) => datetime_json(*dt) == Some(t@),
            None => datetime_json(*dt) is None,
        },
{
    match format_rfc3339(dt) {
        Some(t) => Some(string_json(t.as_str())),
        None => None,
    }
}

/// The kind of a video.
#[derive(Debug, Clone, Copy, PartialEq, Eq, Structural)]
pub enum ContentType {
    Long,
    Short,
}

/// The JSON text of a content type.
pub open spec fn content_type_json(c: ContentType) -> Seq<char> {
    match c {
        ContentType::Long => "\"long\""@,
        ContentType::Short => "\"short\""@,
    }
}

fn content_type_json_exec(c: &ContentType) -> (r: String)
    ensures
        r@ == content_type_json(*c),
{
    match c {
        ContentType::Long => "\"long\"".to_owned(),
        ContentType::Short => "\"short\"".to_owned(),
    }
}


// ---------------------------------------------------------------------------
// The filter language
// ---------------------------------------------------------------------------

/// One end of a range.
#[derive(Debug, Clone, Copy, PartialEq, Eq)]
pub enum Bound<T> {
    Included(T),
    Excluded(T),
    Unbounded,
}

impl<T: View> View for Bound<T> {
    type V = Bound<T::V>;

    open spec fn view(&self) -> Bound<T::V> {
        match self {
            Bound::Included(v) => Bound::Included(v@),
            Bound::Excluded(v) => Bound::Excluded(v@),
            Bound::Unbounded => Bound::Unbounded,
        }
    }
}

/// A value either borrowed or owned.
#[derive(Debug)]
pub enum RefOrBox<'a, T> {
    Ref(&'a T),
    Owned(Box<T>),
}

impl<'a, T> RefOrBox<'a, T> {
    /// The value, however it is held.
    pub open spec fn value(self) -> T {
        match self {
            RefOrBox::Ref(r) => *r,
            RefOrBox::Owned(b) => *b,
        }
    }

    /// The value, however it is held.
    pub fn get(&self) -> (r: &T)
        ensures
            *r == self.value(),
    {
        match self {
            RefOrBox::Ref(r) => r,
            RefOrBox::Owned(b) => b,
        }
    }
}

/// Why a filter has no JSON text.
#[derive(Debug, Clone, Copy, PartialEq, Eq, Structural)]
pub enum JsonFilterError {
    /// A range with neither a lower nor an upper end.
    EmptyRange,
    /// A point in time that has no RFC 3339 form.
    InvalidDateTime,
}

/// A filter that keeps the videos whose field equals a value.
#[derive(Debug)]
pub enum FilterEqual<'a> {
    ContentId(Cow<'a, str>),
    ViewCounter(u64),
    MylistCounter(u64),
    LikeCounter(u64),
    LengthSeconds(u64),
    StartTime(DateTime),
    CommentCounter(u64),
    LastCommentTime(Cow<'a, str>),
    CategoryTags(Cow<'a, str>),
    Tags(Cow<'a, str>),
    TagsExact(Cow<'a, str>),
    Genre(Cow<'a, str>),
    GenreKeyword(Cow<'a, str>),
    ContentType(ContentType),
}

/// The field name and the JSON text of the value of an equality filter (`None` for a
/// point in time that has no RFC 3339 form).
pub open spec fn equal_parts(e: FilterEqual) -> (Seq<char>, Option<Seq<char>>) {
    match e {
        FilterEqual::ContentId(v) => ("contentId"@, Some(json_string_literal(v@))),
        FilterEqual::ViewCounter(n) => ("viewCounter"@, Some(decimal_text(n as nat))),
        FilterEqual::MylistCounter(n) => ("mylistCounter"@, Some(decimal_text(n as nat))),
        FilterEqual::LikeCounter(n) => ("likeCounter"@, Some(decimal_text(n as nat))),
        FilterEqual::LengthSeconds(n) => ("lengthSeconds"@, Some(decimal_text(n as nat))),
        FilterEqual::StartTime(t) => ("startTime"@, datetime_json(t)),
        FilterEqual::CommentCounter(n) => ("commentCounter"@, Some(decimal_text(n as nat))),
        FilterEqual::LastCommentTime(v) => ("lastCommentTime"@, Some(json_string_literal(v@))),
        FilterEqual::CategoryTags(v) => ("categoryTags"@, Some(json_string_literal(v@))),
        FilterEqual::Tags(v) => ("tags"@, Some(json_string_literal(v@))),
        FilterEqual::TagsExact(v) => ("tagsExact"@, Some(json_string_literal(v@))),
        FilterEqual::Genre(v) => ("genre"@, Some(json_string_literal(v@))),
        FilterEqual::GenreKeyword(v) => ("genreKeyword"@, Some(json_string_literal(v@))),
        FilterEqual::ContentType(c) => ("contentType"@, Some(content_type_json(c))),
    }
}

/// The JSON text of an equality filter.
pub open spec fn equal_json(e: FilterEqual) -> Result<Seq<char>, JsonFilterError> {
    let (field, value) = equal_parts(e);
    match value {
        Some(v) => Ok(equal_text(field, v)),
        None => Err(JsonFilterError::InvalidDateTime),
    }
}

/// `{"type":"equal","field":<field>,"value":<value>}`.
pub open spec fn equal_text(field: Seq<char>, value: Seq<char>) -> Seq<char> {
    "{\"type\":\"equal\",\"field\":\""@ + field + "\",\"value\":"@ + value + "}"@
}

/// A filter that keeps the videos whose field lies within a range.
#[derive(Debug)]
pub enum FilterRange<'a> {
    ContentId((Bound<Cow<'a, str>>, Bound<Cow<'a, str>>)),
    ViewCounter((Bound<u64>, Bound<u64>)),
    MylistCounter((Bound<u64>, Bound<u64>)),
    LikeCounter((Bound<u64>, Bound<u64>)),
    LengthSeconds((Bound<u64>, Bound<u64>)),
    StartTime((Bound<DateTime>, Bound<DateTime>)),
    CommentCounter((Bound<u64>, Bound<u64>)),
    LastCommentTime((Bound<Cow<'a, str>>, Bound<Cow<'a, str>>)),
    CategoryTags((Bound<Cow<'a, str>>, Bound<Cow<'a, str>>)),
    Tags((Bound<Cow<'a, str>>, Bound<Cow<'a, str>>)),
    TagsExact((Bound<Cow<'a, str>>, Bound<Cow<'a, str>>)),
    Genre((Bound<Cow<'a, str>>, Bound<Cow<'a, str>>)),
    GenreKeyword((Bound<Cow<'a, str>>, Bound<Cow<'a, str>>)),
    ContentType((Bound<ContentType>, Bound<ContentType>)),
}

/// A range end over strings, its value as JSON text.
pub open spec fn str_bound(b: Bound<Cow<str>>) -> Bound<Seq<char>> {
    match b {
        Bound::Included(v) => Bound::Included(json_string_literal(v@)),
        Bound::Excluded(v) => Bound::Excluded(json_string_literal(v@)),
        Bound::Unbounded => Bound::Unbounded,
    }
}

/// A range end over numbers, its value as JSON text.
pub open spec fn u64_bound(b: Bound<u64>) -> Bound<Seq<char>> {
    match b {
        Bound::Included(n) => Bound::Included(decimal_text(n as nat)),
        Bound::Excluded(n) => Bound::Excluded(decimal_text(n as nat)),
        Bound::Unbounded => Bound::Unbounded,
    }
}

/// A range end over content types, its value as JSON text.
pub open spec fn content_type_bound(b: Bound<ContentType>) -> Bound<Seq<char>> {
    match b {
        Bound::Included(c) => Bound::Included(content_type_json(c)),
        Bound::Excluded(c) => Bound::Excluded(content_type_json(c)),
        Bound::Unbounded => Bound::Unbounded,
    }
}

/// A range end over points in time, its value as JSON text (`None` where the time has
/// no RFC 3339 form).
pub open spec fn datetime_bound(b: Bound<DateTime>) -> Option<Bound<Seq<char>>> {
    match b {
        Bound::Included(t) => match datetime_json(t) {
            Some(v) => Some(Bound::Included(v)),
            None => None,
        },
        Bound::Excluded(t) => match datetime_json(t) {
            Some(v) => Some(Bound::Excluded(v)),
            None => None,
        },
        Bound::Unbounded => Some(Bound::Unbounded),
    }
}

/// The field name of a range filter and its two ends with values as JSON text (`None`
/// for a point in time that has no RFC 3339 form).
pub open spec fn range_parts(r: FilterRange) -> (Seq<char>, Option<(Bound<Seq<char>>, Bound<Seq<char>>)>) {
    match r {
        FilterRange::ContentId((l, u)) => ("contentId"@, Some((str_bound(l), str_bound(u)))),
        FilterRange::ViewCounter((l, u)) => ("viewCounter"@, Some((u64_bound(l), u64_bound(u)))),
        FilterRange::MylistCounter((l, u)) => ("mylistCounter"@, Some((u64_bound(l), u64_bound(u)))),
        FilterRange::LikeCounter((l, u)) => ("likeCounter"@, Some((u64_bound(l), u64_bound(u)))),
        FilterRange::LengthSeconds((l, u)) => ("lengthSeconds"@, Some((u64_bound(l), u64_bound(u)))),
        FilterRange::StartTime((l, u)) => (
            "startTime"@,
            match (datetime_bound(l), datetime_bound(u)) {
                (Some(a), Some(b)) => Some((a, b)),
                _ => None,
            },
        ),
        FilterRange::CommentCounter((l, u)) => ("commentCounter"@, Some((u64_bound(l), u64_bound(u)))),
        FilterRange::LastCommentTime((l, u)) => ("lastCommentTime"@, Some((str_bound(l), str_bound(u)))),
        FilterRange::CategoryTags((l, u)) => ("categoryTags"@, Some((str_bound(l), str_bound(u)))),
        FilterRange::Tags((l, u)) => ("tags"@, Some((str_bound(l), str_bound(u)))),
        FilterRange::TagsExact((l, u)) => ("tagsExact"@, Some((str_bound(l), str_bound(u)))),
        FilterRange::Genre((l, u)) => ("genre"@, Some((str_bound(l), str_bound(u)))),
        FilterRange::GenreKeyword((l, u)) => ("genre.keyword"@, Some((str_bound(l), str_bound(u)))),
        FilterRange::ContentType((l, u)) => (
            "contentType"@,
            Some((content_type_bound(l), content_type_bound(u))),
        ),
    }
}

/// The members that a lower end adds: `,"from":<value>,"include_lower":<inclusive>`.
pub open spec fn lower_members(b: Bound<Seq<char>>) -> Seq<char> {
    match b {
        Bound::Included(v) => ",\"from\":"@ + v + ",\"include_lower\":true"@,
        Bound::Excluded(v) => ",\"from\":"@ + v + ",\"include_lower\":false"@,
        Bound::Unbounded => Seq::empty(),
    }
}

/// The members that an upper end adds: `,"to":<value>,"include_upper":<inclusive>`.
pub open spec fn upper_members(b: Bound<Seq<char>>) -> Seq<char> {
    match b {
        Bound::Included(v) => ",\"to\":"@ + v + ",\"include_upper\":true"@,
        Bound::Excluded(v) => ",\"to\":"@ + v + ",\"include_upper\":false"@,
        Bound::Unbounded => Seq::empty(),
    }
}

/// `{"type":"range","field":<field>` followed by the members of each end and `}`.
pub open spec fn range_text(field: Seq<char>, lower: Bound<Seq<char>>, upper: Bound<Seq<char>>) -> Seq<char> {
    "{\"type\":\"range\",\"field\":\""@ + field + "\""@ + lower_members(lower) + upper_members(upper)
        + "}"@
}

/// The JSON text of a range filter: a range needs at least one end.
pub open spec fn range_json(r: FilterRange) -> Result<Seq<char>, JsonFilterError> {
    let (field, ends) = range_parts(r);
    match ends {
        None => Err(JsonFilterError::InvalidDateTime),
        Some((lower, upper)) => if lower is Unbounded && upper is Unbounded {
            Err(JsonFilterError::EmptyRange)
        } else {
            Ok(range_text(field, lower, upper))
        },
    }
}

/// A filter of the snapshot API's `jsonFilter` parameter.
#[derive(Debug)]
pub enum JsonFilter<'a> {
    Equal(FilterEqual<'a>),
    Range(FilterRange<'a>),
    Or { filters: RefOrBox<'a, Vec<JsonFilter<'a>>> },
    And { filters: RefOrBox<'a, Vec<JsonFilter<'a>>> },
    Not { filter: RefOrBox<'a, JsonFilter<'a>> },
}

/// The texts joined with commas.
pub open spec fn joined(texts: Seq<Seq<char>>) -> Seq<char>
    decreases texts.len(),
{
    if texts.len() == 0 {
        Seq::empty()
    } else if texts.len() == 1 {
        texts[0]
    } else {
        joined(texts.drop_last()) + ","@ + texts.last()
    }
}

/// `{"type":"or","filters":[...]}` around the texts of the parts.
pub open spec fn or_text(texts: Seq<Seq<char>>) -> Seq<char> {
    "{\"type\":\"or\",\"filters\":["@ + joined(texts) + "]}"@
}

/// `{"type":"and","filters":[...]}` around the texts of the parts.
pub open spec fn and_text(texts: Seq<Seq<char>>) -> Seq<char> {
    "{\"type\":\"and\",\"filters\":["@ + joined(texts) + "]}"@
}

/// `{"type":"not","filter":...}` around the text of the part.
pub open spec fn not_text(text: Seq<char>) -> Seq<char> {
    "{\"type\":\"not\",\"filter\":"@ + text + "}"@
}

/// The JSON text of a filter, or why it has none: the first failure met in the order in
/// which the text is written.
pub open spec fn filter_json(f: JsonFilter) -> Result<Seq<char>, JsonFilterError>
    decreases f,
{
    match f {
        JsonFilter::Equal(e) => equal_json(e),
        JsonFilter::Range(r) => range_json(r),
        JsonFilter::Or { filters: RefOrBox::Ref(v) } => match list_json(v@) {
            Ok(texts) => Ok(or_text(texts)),
            Err(e) => Err(e),
        },
        JsonFilter::Or { filters: RefOrBox::Owned(v) } => match list_json(v@) {
            Ok(texts) => Ok(or_text(texts)),
            Err(e) => Err(e),
        },
        JsonFilter::And { filters: RefOrBox::Ref(v) } => match list_json(v@) {
            Ok(texts) => Ok(and_text(texts)),
            Err(e) => Err(e),
        },
        JsonFilter::And { filters: RefOrBox::Owned(v) } => match list_json(v@) {
            Ok(texts) => Ok(and_text(texts)),
            Err(e) => Err(e),
        },
        JsonFilter::Not { filter: RefOrBox::Ref(g) } => match filter_json(*g) {
            Ok(text) => Ok(not_text(text)),
            Err(e) => Err(e),
        },
        JsonFilter::Not { filter: RefOrBox::Owned(g) } => match filter_json(*g) {
            Ok(text) => Ok(not_text(text)),
            Err(e) => Err(e),
        },
    }
}

/// The JSON texts of a list of filters, or the first failure among them.
pub open spec fn list_json(fs: Seq<JsonFilter>) -> Result<Seq<Seq<char>>, JsonFilterError>
    decreases fs,
{
    if fs.len() == 0 {
        Ok(Seq::empty())
    } else {
        match list_json(fs.subrange(0, fs.len() - 1)) {
            Err(e) => Err(e),
            Ok(texts) => match filter_json(fs[fs.len() - 1]) {
                Err(e) => Err(e),
                Ok(t) => Ok(texts.push(t)),
            },
        }
    }
}

/// A text result seen as characters.
pub open spec fn text_result(r: Result<String, JsonFilterError>) -> Result<Seq<char>, JsonFilterError> {
    match r {
        Ok(t) => Ok(t@),
        Err(e) => Err(e),
    }
}

fn equal_text_exec(field: &str, value: &str) -> (r: String)
    ensures
        r@ == equal_text(field@, value@),
{
    let mut out = "{\"type\":\"equal\",\"field\":\"".to_owned();
    append_chars(&mut out, field);
    append_chars(&mut out, "\",\"value\":");
    append_chars(&mut out, value);
    append_chars(&mut out, "}");
    out
}

impl<'a> FilterEqual<'a> {
    /// The JSON text of this filter, as `equal_json` states it.
    pub fn to_json(&self) -> (r: Result<String, JsonFilterError>)
        ensures
            text_result(r) == equal_json(*self),
    {
        let (field, value): (&str, Option<String>) = match self {
            FilterEqual::ContentId(v) => ("contentId", Some(string_json(cow_str(v)))),
            FilterEqual::ViewCounter(n) => ("viewCounter", Some(u64_json(*n))),
            FilterEqual::MylistCounter(n) => ("mylistCounter", Some(u64_json(*n))),
            FilterEqual::LikeCounter(n) => ("likeCounter", Some(u64_json(*n))),
            FilterEqual::LengthSeconds(n) => ("lengthSeconds", Some(u64_json(*n))),
            FilterEqual::StartTime(t) => ("startTime", datetime_json_exec(t)),
            FilterEqual::CommentCounter(n) => ("commentCounter", Some(u64_json(*n))),
            FilterEqual::LastCommentTime(v) => ("lastCommentTime", Some(string_json(cow_str(v)))),
            FilterEqual::CategoryTags(v) => ("categoryTags", Some(string_json(cow_str(v)))),
            FilterEqual::Tags(v) => ("tags", Some(string_json(cow_str(v)))),
            FilterEqual::TagsExact(v) => ("tagsExact", Some(string_json(cow_str(v)))),
            FilterEqual::Genre(v) => ("genre", Some(string_json(cow_str(v)))),
            FilterEqual::GenreKeyword(v) => ("genreKeyword", Some(string_json(cow_str(v)))),
            FilterEqual::ContentType(c) => ("contentType", Some(content_type_json_exec(c))),
        };
        proof {
            let (sf, sv) = equal_parts(*self);
            assert(sf == field@);
            assert(match value {
                Some(t) => sv == Some(t@),
                None => sv is None,
            });
        }
        match value {
            Some(v) => Ok(equal_text_exec(field, v.as_str())),
            None => Err(JsonFilterError::InvalidDateTime),
        }
    }
}

fn str_bound_exec(b: &Bound<Cow<'_, str>>) -> (r: Bound<String>)
    ensures
        r@ == str_bound(*b),
{
    match b {
        Bound::Included(v) => Bound::Included(string_json(cow_str(v))),
        Bound::Excluded(v) => Bound::Excluded(string_json(cow_str(v))),
        Bound::Unbounded => Bound::Unbounded,
    }
}

fn u64_bound_exec(b: &Bound<u64>) -> (r: Bound<String>)
    ensures
        r@ == u64_bound(*b),
{
    match b {
        Bound::Included(n) => Bound::Included(u64_json(*n)),
        Bound::Excluded(n) => Bound::Excluded(u64_json(*n)),
        Bound::Unbounded => Bound::Unbounded,
    }
}

fn content_type_bound_exec(b: &Bound<ContentType>) -> (r: Bound<String>)
    ensures
        r@ == content_type_bound(*b),
{
    match b {
        Bound::Included(c) => Bound::Included(content_type_json_exec(c)),
        Bound::Excluded(c) => Bound::Excluded(content_type_json_exec(c)),
        Bound::Unbounded => Bound::Unbounded,
    }
}

fn datetime_bound_exec(b: &Bound<DateTime>) -> (r: Option<Bound<String>>)
    ensures
        match r {
            Some(x) => datetime_bound(*b) == Some(x@),
            None => datetime_bound(*b) is None,
        },
{
    match b {
        Bound::Included(t) => match datetime_json_exec(t) {
            Some(v) => Some(Bound::Included(v)),
            None => None,
        },
        Bound::Excluded(t) => match datetime_json_exec(t) {
            Some(v) => Some(Bound::Excluded(v)),
            None => None,
        },
        Bound::Unbounded => Some(Bound::Unbounded),
    }
}

fn write_lower(out: &mut String, b: &Bound<String>)
    ensures
        final(out)@ == old(out)@ + lower_members(b@),
{
    match b {
        Bound::Included(v) => {
            append_chars(out, ",\"from\":");
            append_chars(out, v.as_str());
            append_chars(out, ",\"include_lower\":true");
        },
        Bound::Excluded(v) => {
            append_chars(out, ",\"from\":");
            append_chars(out, v.as_str());
            append_chars(out, ",\"include_lower\":false");
        },
        Bound::Unbounded => {
            assert(old(out)@ + Seq::<char>::empty() == old(out)@);
        },
    }
}

fn write_upper(out: &mut String, b: &Bound<String>)
    ensures
        final(out)@ == old(out)@ + upper_members(b@),
{
    match b {
        Bound::Included(v) => {
            append_chars(out, ",\"to\":");
            append_chars(out, v.as_str());
            append_chars(out, ",\"include_upper\":true");
        },
        Bound::Excluded(v) => {
            append_chars(out, ",\"to\":");
            append_chars(out, v.as_str());
            append_chars(out, ",\"include_upper\":false");
        },
        Bound::Unbounded => {
            assert(old(out)@ + Seq::<char>::empty() == old(out)@);
        },
    }
}

impl<'a> FilterRange<'a> {
    fn ends(&self) -> (r: (&'static str, Option<(Bound<String>, Bound<String>)>))
        ensures
            r.0@ == range_parts(*self).0,
            match r.1 {
                Some((l, u)) => range_parts(*self).1 == Some((l@, u@)),
                None => range_parts(*self).1 is None,
            },
    {
        match self {
            FilterRange::ContentId((l, u)) => ("contentId", Some((str_bound_exec(l), str_bound_exec(u)))),
            FilterRange::ViewCounter((l, u)) => ("viewCounter", Some((u64_bound_exec(l), u64_bound_exec(u)))),
            FilterRange::MylistCounter((l, u)) => ("mylistCounter", Some((u64_bound_exec(l), u64_bound_exec(u)))),
            FilterRange::LikeCounter((l, u)) => ("likeCounter", Some((u64_bound_exec(l), u64_bound_exec(u)))),
            FilterRange::LengthSeconds((l, u)) => ("lengthSeconds", Some((u64_bound_exec(l), u64_bound_exec(u)))),
            FilterRange::StartTime((l, u)) => {
                let lower = datetime_bound_exec(l);
                let upper = datetime_bound_exec(u);
                match (lower, upper) {
                    (Some(a), Some(b)) => ("startTime", Some((a, b))),
                    _ => ("startTime", None),
                }
            },
            FilterRange::CommentCounter((l, u)) => ("commentCounter", Some((u64_bound_exec(l), u64_bound_exec(u)))),
            FilterRange::LastCommentTime((l, u)) => ("lastCommentTime", Some((str_bound_exec(l), str_bound_exec(u)))),
            FilterRange::CategoryTags((l, u)) => ("categoryTags", Some((str_bound_exec(l), str_bound_exec(u)))),
            FilterRange::Tags((l, u)) => ("tags", Some((str_bound_exec(l), str_bound_exec(u)))),
            FilterRange::TagsExact((l, u)) => ("tagsExact", Some((str_bound_exec(l), str_bound_exec(u)))),
            FilterRange::Genre((l, u)) => ("genre", Some((str_bound_exec(l), str_bound_exec(u)))),
            FilterRange::GenreKeyword((l, u)) => ("genre.keyword", Some((str_bound_exec(l), str_bound_exec(u)))),
            FilterRange::ContentType((l, u)) => (
                "contentType",
                Some((content_type_bound_exec(l), content_type_bound_exec(u))),
            ),
        }
    }

    /// The JSON text of this filter, as `range_json` states it: a range with neither end
    /// is refused.
    pub fn to_json(&self) -> (r: Result<String, JsonFilterError>)
        ensures
            text_result(r) == range_json(*self),
    {
        let (field, ends) = self.ends();
        match ends {
            None => Err(JsonFilterError::InvalidDateTime),
            Some((lower, upper)) => {
                let lower_open = match lower {
                    Bound::Unbounded => true,
                    _ => false,
                };
                let upper_open = match upper {
                    Bound::Unbounded => true,
                    _ => false,
                };
                if lower_open && upper_open {
                    return Err(JsonFilterError::EmptyRange);
                }
                let mut out = "{\"type\":\"range\",\"field\":\"".to_owned();
                append_chars(&mut out, field);
                append_chars(&mut out, "\"");
                write_lower(&mut out, &lower);
                write_upper(&mut out, &upper);
                append_chars(&mut out, "}");
                Ok(out)
            },
        }
    }
}

proof fn lemma_joined_push(texts: Seq<Seq<char>>, t: Seq<char>)
    ensures
        joined(texts.push(t)) == if texts.len() == 0 {
            t
        } else {
            joined(texts) + ","@ + t
        },
{
    assert(texts.push(t).drop_last() == texts);
    if texts.len() == 0 {
        assert(texts.push(t)[0] == t);
    }
}

fn list_to_json(fs: &Vec<JsonFilter<'_>>) -> (r: Result<String, JsonFilterError>)
    ensures
        match r {
            Ok(t) => list_json(fs@) matches Ok(texts) && t@ == joined(texts),
            Err(e) => list_json(fs@) == Err::<Seq<Seq<char>>, JsonFilterError>(e),
        },
    decreases fs,
{
    let mut out = String::new();
    let ghost mut texts: Seq<Seq<char>> = Seq::empty();
    let mut i: usize = 0;
    assert(fs@.subrange(0, 0).len() == 0);
    while i < fs.len()
        invariant
            i <= fs.len(),
            list_json(fs@.subrange(0, i as int)) == Ok::<Seq<Seq<char>>, JsonFilterError>(texts),
            out@ == joined(texts),
        decreases fs.len() - i,
    {
        let ghost prefix = fs@.subrange(0, i as int + 1);
        assert(prefix.subrange(0, prefix.len() - 1) == fs@.subrange(0, i as int));
        assert(prefix[prefix.len() - 1] == fs@[i as int]);
        let t = fs[i].to_json();
        match t {
            Err(e) => {
                proof {
                    let k = i as int;
                    assert(list_json(fs@.subrange(0, k + 1)) == Err::<Seq<Seq<char>>, JsonFilterError>(e));
                    lemma_list_json_prefix_error(fs@, k + 1);
                }
                return Err(e);
            },
            Ok(text) => {
                proof {
                    lemma_joined_push(texts, text@);
                }
                if i > 0 {
                    append_chars(&mut out, ",");
                }
                append_chars(&mut out, text.as_str());
                proof {
                    texts = texts.push(text@);
                }
            },
        }
        i += 1;
    }
    assert(fs@.subrange(0, fs.len() as int) == fs@);
    Ok(out)
}

/// An error in a prefix of a list is the error of the whole list.
proof fn lemma_list_json_prefix_error(fs: Seq<JsonFilter>, k: int)
    requires
        0 <= k <= fs.len(),
        list_json(fs.subrange(0, k)) is Err,
    ensures
        list_json(fs) == list_json(fs.subrange(0, k)),
    decreases fs.len() - k,
{
    if k < fs.len() {
        let longer = fs.subrange(0, k + 1);
        assert(longer.subrange(0, longer.len() - 1) == fs.subrange(0, k));
        assert(fs.subrange(0, k + 1).subrange(0, k) == fs.subrange(0, k));
        assert(list_json(longer) == list_json(fs.subrange(0, k)));
        lemma_list_json_prefix_error(fs, k + 1);
    } else {
        assert(fs.subrange(0, k) == fs);
    }
}

impl<'a> JsonFilter<'a> {
    /// The JSON text of this filter, as `filter_json` states it.
    pub fn to_json(&self) -> (r: Result<String, JsonFilterError>)
        ensures
            text_result(r) == filter_json(*self),
        decreases self,
    {
        match self {
            JsonFilter::Equal(e) => e.to_json(),
            JsonFilter::Range(r) => r.to_json(),
            JsonFilter::Or { filters } => {
                let v = match filters {
                    RefOrBox::Ref(v) => *v,
                    RefOrBox::Owned(v) => &**v,
                };
                match list_to_json(v) {
                    Ok(t) => {
                        let mut out = "{\"type\":\"or\",\"filters\":[".to_owned();
                        append_chars(&mut out, t.as_str());
                        append_chars(&mut out, "]}");
                        Ok(out)
                    },
                    Err(e) => Err(e),
                }
            },
            JsonFilter::And { filters } => {
                let v = match filters {
                    RefOrBox::Ref(v) => *v,
                    RefOrBox::Owned(v) => &**v,
                };
                match list_to_json(v) {
                    Ok(t) => {
                        let mut out = "{\"type\":\"and\",\"filters\":[".to_owned();
                        append_chars(&mut out, t.as_str());
                        append_chars(&mut out, "]}");
                        Ok(out)
                    },
                    Err(e) => Err(e),
                }
            },
            JsonFilter::Not { filter } => {
                let g = match filter {
                    RefOrBox::Ref(g) => *g,
                    RefOrBox::Owned(g) => &**g,
                };
                match g.to_json() {
                    Ok(t) => {
                        let mut out = "{\"type\":\"not\",\"filter\":".to_owned();
                        append_chars(&mut out, t.as_str());
                        append_chars(&mut out, "}");
                        Ok(out)
                    },
                    Err(e) => Err(e),
                }
            },
        }
    }
}

// ---------------------------------------------------------------------------
// The query string and the request
// ---------------------------------------------------------------------------

/// What a query searches for: nothing (`q` empty), or a text in the given fields.
#[derive(Debug)]
pub enum SnapshotSearchQueryTarget<'a> {
    Empty,
    Query { q: &'a str, targets: &'a str },
}

/// The parameters of a search request.
#[derive(Debug)]
pub struct SnapshotSearchQuery<'a> {
    pub q: SnapshotSearchQueryTarget<'a>,
    pub fields: &'a str,
    pub json_filter: Option<String>,
    pub sort: &'a str,
    pub limit: usize,
    pub offset: usize,
    pub context: &'a str,
}

/// A list of query pairs seen as characters.
pub open spec fn pairs_view(pairs: Seq<(String, String)>) -> Seq<(Seq<char>, Seq<char>)> {
    pairs.map_values(|p: (String, String)| (p.0@, p.1@))
}

/// The pairs that a target contributes: `q` alone, empty, or `q` and `targets`.
pub open spec fn target_pairs(t: SnapshotSearchQueryTarget) -> Seq<(Seq<char>, Seq<char>)> {
    match t {
        SnapshotSearchQueryTarget::Empty => seq![("q"@, ""@)],
        SnapshotSearchQueryTarget::Query { q, targets } => seq![("q"@, q@), ("targets"@, targets@)],
    }
}

/// The query pairs of a request, in order: the target's, `fields`, `jsonFilter` where
/// there is a filter, `_sort`, `_limit`, `_offset` and `_context`.
pub open spec fn pairs_of(
    target: Seq<(Seq<char>, Seq<char>)>,
    fields: Seq<char>,
    json_filter: Option<Seq<char>>,
    sort: Seq<char>,
    limit: nat,
    offset: nat,
    context: Seq<char>,
) -> Seq<(Seq<char>, Seq<char>)> {
    target + seq![("fields"@, fields)] + match json_filter {
        Some(f) => seq![("jsonFilter"@, f)],
        None => Seq::empty(),
    } + seq![
        ("_sort"@, sort),
        ("_limit"@, decimal_text(limit)),
        ("_offset"@, decimal_text(offset)),
        ("_context"@, context),
    ]
}

/// The query pairs of a query.
pub open spec fn query_pairs(q: SnapshotSearchQuery) -> Seq<(Seq<char>, Seq<char>)> {
    pairs_of(
        target_pairs(q.q),
        q.fields@,
        match q.json_filter {
            Some(f) => Some(f@),
            None => None,
        },
        q.sort@,
        q.limit as nat,
        q.offset as nat,
        q.context@,
    )
}

fn push_pair(pairs: &mut Vec<(String, String)>, key: &str, value: &str)
    ensures
        pairs_view(final(pairs)@) == pairs_view(old(pairs)@).push((key@, value@)),
{
    pairs.push((key.to_owned(), value.to_owned()));
    assert(pairs_view(pairs@) =~= pairs_view(old(pairs)@).push((key@, value@)));
}

impl<'a> SnapshotSearchQuery<'a> {
    /// The query pairs, as `query_pairs` states them.
    pub fn pairs(&self) -> (r: Vec<(String, String)>)
        ensures
            pairs_view(r@) == query_pairs(*self),
    {
        let mut pairs: Vec<(String, String)> = Vec::new();
        match &self.q {
            SnapshotSearchQueryTarget::Empty => {
                push_pair(&mut pairs, "q", "");
            },
            SnapshotSearchQueryTarget::Query { q, targets } => {
                push_pair(&mut pairs, "q", q);
                push_pair(&mut pairs, "targets", targets);
            },
        }
        let ghost target = pairs_view(pairs@);
        assert(target =~= target_pairs(self.q));
        push_pair(&mut pairs, "fields", self.fields);
        let ghost with_fields = pairs_view(pairs@);
        match &self.json_filter {
            Some(f) => {
                push_pair(&mut pairs, "jsonFilter", f.as_str());
            },
            None => {},
        }
        let ghost with_filter = pairs_view(pairs@);
        push_pair(&mut pairs, "_sort", self.sort);
        let mut limit = String::new();
        write_decimal(&mut limit, self.limit as u64);
        push_pair(&mut pairs, "_limit", limit.as_str());
        let mut offset = String::new();
        write_decimal(&mut offset, self.offset as u64);
        push_pair(&mut pairs, "_offset", offset.as_str());
        push_pair(&mut pairs, "_context", self.context);
        assert(pairs_view(pairs@) =~= query_pairs(*self));
        pairs
    }
}

/// Whether the form encoding keeps a byte as it is: ASCII letters and digits, `*`, `-`,
/// `.` and `_`.
pub open spec fn form_unreserved(b: u8) -> bool {
    b == 0x2A || b == 0x2D || b == 0x2E || (0x30 <= b <= 0x39) || (0x41 <= b <= 0x5A) || b == 0x5F
        || (0x61 <= b <= 0x7A)
}

/// The uppercase hexadecimal digit of `d` (below 16).
pub open spec fn upper_hex_digit(d: nat) -> char {
    if d < 10 {
        (d + 48) as char
    } else {
        (d + 55) as char
    }
}

/// The form encoding of a byte: itself when kept, `+` for a space, else `%` and two
/// uppercase hexadecimal digits.
pub open spec fn form_byte(b: u8) -> Seq<char> {
    if form_unreserved(b) {
        seq![b as char]
    } else if b == 0x20 {
        seq!['+']
    } else {
        seq!['%', upper_hex_digit(b as nat / 16), upper_hex_digit(b as nat % 16)]
    }
}

/// The form encoding of bytes, byte by byte.
pub open spec fn form_bytes(bs: Seq<u8>) -> Seq<char>
    decreases bs.len(),
{
    if bs.len() == 0 {
        Seq::empty()
    } else {
        form_bytes(bs.drop_last()) + form_byte(bs.last())
    }
}

/// The form encoding of a pair: the key's UTF-8 bytes encoded, `=`, and the value's.
pub open spec fn form_pair(p: (Seq<char>, Seq<char>)) -> Seq<char> {
    form_bytes(vstd::utf8::encode_utf8(p.0)) + seq!['='] + form_bytes(vstd::utf8::encode_utf8(p.1))
}

/// The `application/x-www-form-urlencoded` text of a list of pairs: each pair encoded,
/// in order, joined by `&`.
pub open spec fn form_urlencoded(pairs: Seq<(Seq<char>, Seq<char>)>) -> Seq<char>
    decreases pairs.len(),
{
    if pairs.len() == 0 {
        Seq::empty()
    } else if pairs.len() == 1 {
        form_pair(pairs[0])
    } else {
        form_urlencoded(pairs.drop_last()) + seq!['&'] + form_pair(pairs.last())
    }
}

/// Calls `serde_urlencoded::to_string` on the pairs. Its serializer starts from an empty
/// string and appends each pair with `form_urlencoded`'s `append_pair`: a `&` when the
/// text is not empty, the key's UTF-8 bytes through `byte_serialize`, `=`, and the
/// value's. The call succeeds: the serializer refuses only pairs that are not two-element
/// tuples and keys or values that are not strings, numbers or unit values, and these
/// pairs are two strings.
#[verifier::external_body]
pub(crate) fn encode_query(pairs: &Vec<(String, String)>) -> (r: Result<String, serde_urlencoded::ser::Error>)
    ensures
        r is Ok,
        r matches Ok(t) ==> t@ == form_urlencoded(pairs_view(pairs@)),
{
    serde_urlencoded::to_string(pairs)
}

#[verifier::external_type_specification]
#[verifier::external_body]
pub struct ExHttpError(http::Error);

#[verifier::external_type_specification]
#[verifier::external_body]
pub struct ExUrlEncodeError(serde_urlencoded::ser::Error);

/// Why a request could not be built.
#[derive(Debug)]
pub enum SnapshotRequestError {
    /// The filter has no JSON text.
    JsonFilterSerialization(JsonFilterError),
    /// The query pairs could not be encoded.
    QueryEncoding(serde_urlencoded::ser::Error),
    /// The application's name is no header value.
    RequestBuild(http::Error),
}

/// A GET request to the snapshot API: its URI and its `User-Agent` header.
#[derive(Debug, Clone, PartialEq, Eq)]
pub struct SnapshotRequest {
    pub uri: String,
    pub user_agent: String,
}

/// The URI of a request with the given query pairs: [`SNAPSHOT_URL`], `?`, and the
/// form-encoded pairs.
pub open spec fn request_uri(pairs: Seq<(Seq<char>, Seq<char>)>) -> Seq<char> {
    SNAPSHOT_URL@ + "?"@ + form_urlencoded(pairs)
}

/// Whether `http` takes a text as a header value: every byte of its UTF-8 form is a tab,
/// or at least a space and not DEL. Characters above U+007F are written with bytes of
/// 0x80 and more, which it takes.
pub open spec fn valid_header_value(s: Seq<char>) -> bool {
    forall|i: int|
        0 <= i < s.len() ==> (#[trigger] s[i] == '\t' || ((s[i] as u32) >= 0x20 && (s[i] as u32)
            != 0x7F))
}

#[verifier::external_type_specification]
#[verifier::external_body]
pub struct ExHeaderValue(http::HeaderValue);

/// Calls `http::HeaderValue::from_str`, which accepts a text exactly when each of its
/// bytes is a tab or at least a space and not DEL (`is_valid` in `header/value.rs`), and
/// turns its error into an `http::Error`, as `Request::builder().header` does.
#[verifier::external_body]
fn header_value(s: &str) -> (r: Result<http::HeaderValue, http::Error>)
    ensures
        r is Ok <==> valid_header_value(s@),
{
    http::HeaderValue::from_str(s).map_err(http::Error::from)
}

/// The GET request for a query, with the application's name as `User-Agent`; refused
/// where the name is no header value.
pub fn build_request(app_name: &str, query: SnapshotSearchQuery) -> (r: Result<
    SnapshotRequest,
    SnapshotRequestError,
>)
    ensures
        valid_header_value(app_name@) ==> (r matches Ok(req) && req.uri@ == request_uri(
            query_pairs(query),
        ) && req.user_agent@ == app_name@),
        !valid_header_value(app_name@) ==> r matches Err(SnapshotRequestError::RequestBuild(_)),
{
    let pairs = query.pairs();
    let q = match encode_query(&pairs) {
        Ok(q) => q,
        Err(_) => String::new(),
    };
    let mut uri = SNAPSHOT_URL.to_owned();
    append_chars(&mut uri, "?");
    append_chars(&mut uri, q.as_str());
    match header_value(app_name) {
        Ok(_) => Ok(SnapshotRequest { uri, user_agent: app_name.to_owned() }),
        Err(e) => Err(SnapshotRequestError::RequestBuild(e)),
    }
}

// ---------------------------------------------------------------------------
// Search and details requests
// ---------------------------------------------------------------------------

/// The field that a search's text is matched against: exact tags.
pub const SEARCH_TARGETS: &'static str = "tagsExact";

/// The sort order of a details request.
pub const DETAILS_SORT: &'static str = "startTime";

/// A range end from an optional inclusive count.
pub open spec fn count_bound(v: Option<usize>) -> Bound<u64> {
    match v {
        Some(n) => Bound::Included(n as u64),
        None => Bound::Unbounded,
    }
}

/// A range end from an optional inclusive point in time.
pub open spec fn time_bound(v: Option<DateTime>) -> Bound<DateTime> {
    match v {
        Some(t) => Bound::Included(t),
        None => Bound::Unbounded,
    }
}

/// The range filters of a search: one on the view count where either end of it is
/// given, then one on the upload time where either end of it is given.
pub open spec fn search_ranges(c: SearchCriteria) -> Seq<JsonFilter<'static>> {
    (if c.view_count_min is Some || c.view_count_max is Some {
        seq![
            JsonFilter::Range(
                FilterRange::ViewCounter((count_bound(c.view_count_min), count_bound(c.view_count_max))),
            ),
        ]
    } else {
        Seq::empty()
    }) + (if c.start_time_from is Some || c.start_time_to is Some {
        seq![
            JsonFilter::Range(
                FilterRange::StartTime((time_bound(c.start_time_from), time_bound(c.start_time_to))),
            ),
        ]
    } else {
        Seq::empty()
    })
}

/// The `jsonFilter` of a search: none without range filters, else the `and` of them.
pub open spec fn search_filter_json(c: SearchCriteria) -> Result<Option<Seq<char>>, JsonFilterError> {
    let ranges = search_ranges(c);
    if ranges.len() == 0 {
        Ok(None)
    } else {
        match list_json(ranges) {
            Ok(texts) => Ok(Some(and_text(texts))),
            Err(e) => Err(e),
        }
    }
}

/// Whether an optional point in time is absent or has an RFC 3339 form.
pub open spec fn formattable_bound(t: Option<DateTime>) -> bool {
    match t {
        Some(dt) => rfc3339_formattable(dt.unix_seconds, dt.nanosecond, dt.offset_seconds),
        None => true,
    }
}

/// A search has a `jsonFilter` text whenever the ends of its upload time range have an
/// RFC 3339 form: the view count range and the time range each have an end when they
/// are there at all.
pub proof fn lemma_search_filter_ok(c: SearchCriteria)
    requires
        formattable_bound(c.start_time_from),
        formattable_bound(c.start_time_to),
    ensures
        search_filter_json(c) is Ok,
{
    let ranges = search_ranges(c);
    let views = if c.view_count_min is Some || c.view_count_max is Some {
        seq![
            JsonFilter::Range(
                FilterRange::ViewCounter((count_bound(c.view_count_min), count_bound(c.view_count_max))),
            ),
        ]
    } else {
        Seq::empty()
    };
    assert(forall|i: int| 0 <= i < views.len() ==> filter_json(#[trigger] views[i]) is Ok);
    let times = if c.start_time_from is Some || c.start_time_to is Some {
        seq![
            JsonFilter::Range(
                FilterRange::StartTime((time_bound(c.start_time_from), time_bound(c.start_time_to))),
            ),
        ]
    } else {
        Seq::empty()
    };
    assert(forall|i: int| 0 <= i < times.len() ==> filter_json(#[trigger] times[i]) is Ok);
    assert(ranges == views + times);
    lemma_list_json_ok(ranges);
}

/// The JSON text of the view count range of a search whose criteria give `min` and `max`:
/// a range on `viewCounter`, `from` the minimum and `to` the maximum where given, both
/// ends included.
pub open spec fn view_range_text(min: Option<usize>, max: Option<usize>) -> Seq<char> {
    range_text(
        "viewCounter"@,
        match min {
            Some(n) => Bound::Included(decimal_text(n as nat)),
            None => Bound::Unbounded,
        },
        match max {
            Some(n) => Bound::Included(decimal_text(n as nat)),
            None => Bound::Unbounded,
        },
    )
}

/// The RFC 3339 text of a point in time, as a JSON string.
pub open spec fn time_literal(t: DateTime) -> Seq<char> {
    json_string_literal(rfc3339_text(t.unix_seconds, t.nanosecond, t.offset_seconds))
}

/// The JSON text of the upload time range of a search whose criteria give `from` and
/// `to`: a range on `startTime`, `from` and `to` the RFC 3339 texts where given, both
/// ends included.
pub open spec fn time_range_text(from: Option<DateTime>, to: Option<DateTime>) -> Seq<char> {
    range_text(
        "startTime"@,
        match from {
            Some(t) => Bound::Included(time_literal(t)),
            None => Bound::Unbounded,
        },
        match to {
            Some(t) => Bound::Included(time_literal(t)),
            None => Bound::Unbounded,
        },
    )
}

/// The text of the view count range filter of a search.
proof fn lemma_view_range_json(c: SearchCriteria)
    requires
        !(c.view_count_min is None && c.view_count_max is None),
    ensures
        filter_json(view_filter(c)) == Ok::<Seq<char>, JsonFilterError>(view_range_text(c.view_count_min, c.view_count_max)),
{
}

/// The text of the upload time range filter of a search.
proof fn lemma_time_range_json(c: SearchCriteria)
    requires
        formattable_bound(c.start_time_from),
        formattable_bound(c.start_time_to),
        !(c.start_time_from is None && c.start_time_to is None),
    ensures
        filter_json(time_filter(c)) == Ok::<Seq<char>, JsonFilterError>(time_range_text(c.start_time_from, c.start_time_to)),
{
}

/// The texts of one filter with a text.
proof fn lemma_list_json_one(f: JsonFilter, t: Seq<char>)
    requires
        filter_json(f) == Ok::<Seq<char>, JsonFilterError>(t),
    ensures
        list_json(seq![f]) == Ok::<Seq<Seq<char>>, JsonFilterError>(seq![t]),
{
    let empty = Seq::<JsonFilter>::empty();
    assert(list_json(empty) == Ok::<Seq<Seq<char>>, JsonFilterError>(Seq::empty()));
    assert(seq![f].subrange(0, 0) =~= empty);
    assert(seq![f][0] == f);
    assert(Seq::<Seq<char>>::empty().push(t) =~= seq![t]);
}

/// The texts of two filters with texts.
proof fn lemma_list_json_two(f: JsonFilter, g: JsonFilter, t: Seq<char>, u: Seq<char>)
    requires
        filter_json(f) == Ok::<Seq<char>, JsonFilterError>(t),
        filter_json(g) == Ok::<Seq<char>, JsonFilterError>(u),
    ensures
        list_json(seq![f, g]) == Ok::<Seq<Seq<char>>, JsonFilterError>(seq![t, u]),
{
    lemma_list_json_one(f, t);
    assert(seq![f, g].subrange(0, 1) =~= seq![f]);
    assert(seq![f, g][1] == g);
    assert(seq![t].push(u) =~= seq![t, u]);
}

/// The filter on the view count range of a search.
pub open spec fn view_filter(c: SearchCriteria) -> JsonFilter<'static> {
    JsonFilter::Range(FilterRange::ViewCounter((count_bound(c.view_count_min), count_bound(c.view_count_max))))
}

/// The filter on the upload time range of a search.
pub open spec fn time_filter(c: SearchCriteria) -> JsonFilter<'static> {
    JsonFilter::Range(FilterRange::StartTime((time_bound(c.start_time_from), time_bound(c.start_time_to))))
}

/// The filters of a search that gives both a view count end and an upload time end.
proof fn lemma_ranges_both(c: SearchCriteria)
    requires
        !(c.view_count_min is None && c.view_count_max is None),
        !(c.start_time_from is None && c.start_time_to is None),
    ensures
        search_ranges(c) == seq![view_filter(c), time_filter(c)],
{
    assert(search_ranges(c) =~= seq![view_filter(c), time_filter(c)]);
}

/// The filters of a search that gives a view count end and no upload time end.
proof fn lemma_ranges_views(c: SearchCriteria)
    requires
        !(c.view_count_min is None && c.view_count_max is None),
        c.start_time_from is None && c.start_time_to is None,
    ensures
        search_ranges(c) == seq![view_filter(c)],
{
    assert(search_ranges(c) =~= seq![view_filter(c)]);
}

/// The filters of a search that gives an upload time end and no view count end.
proof fn lemma_ranges_times(c: SearchCriteria)
    requires
        c.view_count_min is None && c.view_count_max is None,
        !(c.start_time_from is None && c.start_time_to is None),
    ensures
        search_ranges(c) == seq![time_filter(c)],
{
    assert(search_ranges(c) =~= seq![time_filter(c)]);
}

/// The filters of a search that gives no range end.
proof fn lemma_ranges_none(c: SearchCriteria)
    requires
        c.view_count_min is None && c.view_count_max is None,
        c.start_time_from is None && c.start_time_to is None,
    ensures
        search_ranges(c) == Seq::<JsonFilter>::empty(),
{
    assert(search_ranges(c) =~= Seq::<JsonFilter>::empty());
}

/// The texts of the filters of a search, with the view count range and the time range
/// each shown by its text.
proof fn lemma_search_filter_texts(c: SearchCriteria)
    requires
        formattable_bound(c.start_time_from),
        formattable_bound(c.start_time_to),
    ensures
        list_json(search_ranges(c)) == Ok::<Seq<Seq<char>>, JsonFilterError>(
            (if !(c.view_count_min is None && c.view_count_max is None) {
                seq![view_range_text(c.view_count_min, c.view_count_max)]
            } else {
                Seq::empty()
            }) + (if !(c.start_time_from is None && c.start_time_to is None) {
                seq![time_range_text(c.start_time_from, c.start_time_to)]
            } else {
                Seq::empty()
            }),
        ),
{
    let vt = view_range_text(c.view_count_min, c.view_count_max);
    let tt = time_range_text(c.start_time_from, c.start_time_to);
    let has_v = !(c.view_count_min is None && c.view_count_max is None);
    let has_t = !(c.start_time_from is None && c.start_time_to is None);
    if has_v && has_t {
        lemma_ranges_both(c);
        lemma_view_range_json(c);
        lemma_time_range_json(c);
        lemma_list_json_two(view_filter(c), time_filter(c), vt, tt);
        assert(seq![vt] + seq![tt] =~= seq![vt, tt]);
    } else if has_v {
        lemma_ranges_views(c);
        lemma_view_range_json(c);
        lemma_list_json_one(view_filter(c), vt);
        assert(seq![vt] + Seq::<Seq<char>>::empty() =~= seq![vt]);
    } else if has_t {
        lemma_ranges_times(c);
        lemma_time_range_json(c);
        lemma_list_json_one(time_filter(c), tt);
        assert(Seq::<Seq<char>>::empty() + seq![tt] =~= seq![tt]);
    } else {
        lemma_ranges_none(c);
        assert(Seq::<Seq<char>>::empty() + Seq::<Seq<char>>::empty() =~= Seq::<Seq<char>>::empty());
    }
}

/// A search has a `jsonFilter` exactly when its criteria give an end of the view count
/// range or of the upload time range (and the upload times have RFC 3339 forms).
pub proof fn lemma_search_filter_presence(c: SearchCriteria)
    requires
        formattable_bound(c.start_time_from),
        formattable_bound(c.start_time_to),
    ensures
        search_filter_json(c) is Ok,
        (search_filter_json(c) matches Ok(Some(_))) <==> (c.view_count_min is Some
            || c.view_count_max is Some || c.start_time_from is Some || c.start_time_to is Some),
{
    lemma_search_filter_texts(c);
}

/// Where the criteria give a minimum or a maximum view count, the search's `jsonFilter`
/// is an `and` whose first part is the range on `viewCounter` from the minimum and to
/// the maximum that are given, both included.
pub proof fn lemma_search_filter_view_range(c: SearchCriteria)
    requires
        formattable_bound(c.start_time_from),
        formattable_bound(c.start_time_to),
        c.view_count_min is Some || c.view_count_max is Some,
    ensures
        search_filter_json(c) matches Ok(Some(t)) && exists|rest: Seq<Seq<char>>|
            t == and_text(#[trigger] seq![view_range_text(c.view_count_min, c.view_count_max)].add(rest)),
{
    lemma_search_filter_texts(c);
    let v = seq![view_range_text(c.view_count_min, c.view_count_max)];
    let rest = if !(c.start_time_from is None && c.start_time_to is None) {
        seq![time_range_text(c.start_time_from, c.start_time_to)]
    } else {
        Seq::empty()
    };
    assert(search_filter_json(c) == Ok::<Option<Seq<char>>, JsonFilterError>(Some(and_text(v.add(rest)))));
}

/// Where the criteria give a start or an end of the upload time, the search's
/// `jsonFilter` is an `and` whose last part is the range on `startTime` from the start
/// and to the end that are given, in RFC 3339, both included.
pub proof fn lemma_search_filter_time_range(c: SearchCriteria)
    requires
        formattable_bound(c.start_time_from),
        formattable_bound(c.start_time_to),
        c.start_time_from is Some || c.start_time_to is Some,
    ensures
        search_filter_json(c) matches Ok(Some(t)) && exists|front: Seq<Seq<char>>|
            t == and_text(#[trigger] front.add(seq![time_range_text(c.start_time_from, c.start_time_to)])),
{
    lemma_search_filter_texts(c);
    let tt = seq![time_range_text(c.start_time_from, c.start_time_to)];
    let front = if !(c.view_count_min is None && c.view_count_max is None) {
        seq![view_range_text(c.view_count_min, c.view_count_max)]
    } else {
        Seq::empty()
    };
    assert(search_filter_json(c) == Ok::<Option<Seq<char>>, JsonFilterError>(Some(and_text(front.add(tt)))));
}

/// A search's `jsonFilter`, whole: none when its criteria give no range end; else the
/// `and` of the view count range, where a minimum or a maximum view count is given,
/// followed by the upload time range, where a start or an end of the upload time is
/// given, each from and to the ends that are given, both included.
pub proof fn lemma_search_filter_exact(c: SearchCriteria)
    requires
        formattable_bound(c.start_time_from),
        formattable_bound(c.start_time_to),
    ensures
        search_filter_json(c) == if c.view_count_min is None && c.view_count_max is None
            && c.start_time_from is None && c.start_time_to is None {
            Ok::<Option<Seq<char>>, JsonFilterError>(None)
        } else {
            Ok::<Option<Seq<char>>, JsonFilterError>(
                Some(
                    and_text(
                        (if c.view_count_min is None && c.view_count_max is None {
                            Seq::empty()
                        } else {
                            seq![view_range_text(c.view_count_min, c.view_count_max)]
                        }) + (if c.start_time_from is None && c.start_time_to is None {
                            Seq::empty()
                        } else {
                            seq![time_range_text(c.start_time_from, c.start_time_to)]
                        }),
                    ),
                ),
            )
        },
{
    lemma_search_filter_texts(c);
}

/// A search request's query holds the `jsonFilter` pair, right after `fields`, whenever
/// it has a filter.
pub proof fn lemma_search_pairs_filter(
    tag_name: Seq<char>,
    json_filter: Option<Seq<char>>,
    sort: Seq<char>,
    limit: nat,
    offset: nat,
    app_name: Seq<char>,
)
    ensures
        json_filter matches Some(t) ==> search_pairs(tag_name, json_filter, sort, limit, offset, app_name)[3]
            == ("jsonFilter"@, t) && search_pairs(tag_name, json_filter, sort, limit, offset, app_name).len()
            == 8,
        json_filter is None ==> search_pairs(tag_name, json_filter, sort, limit, offset, app_name).len() == 7,
{
}

/// A search request whose criteria give a range end carries a `jsonFilter` pair, right
/// after `fields`, holding the search's filter text; one whose criteria give none carries
/// no filter and one pair fewer.
pub proof fn lemma_search_request_filter_pair(
    c: SearchCriteria,
    sort: Seq<char>,
    limit: nat,
    offset: nat,
    app_name: Seq<char>,
)
    requires
        formattable_bound(c.start_time_from),
        formattable_bound(c.start_time_to),
    ensures
        search_filter_json(c) matches Ok(filter) && {
            let pairs = search_pairs(c.tag_name@, filter, sort, limit, offset, app_name);
            &&& !(c.view_count_min is None && c.view_count_max is None && c.start_time_from is None
                && c.start_time_to is None) ==> (filter matches Some(t) && pairs.len() == 8
                && pairs[3] == ("jsonFilter"@, t))
            &&& (c.view_count_min is None && c.view_count_max is None && c.start_time_from is None
                && c.start_time_to is None) ==> (filter is None && pairs.len() == 7)
        },
{
    lemma_search_filter_presence(c);
    let filter = search_filter_json(c)->Ok_0;
    lemma_search_pairs_filter(c.tag_name@, filter, sort, limit, offset, app_name);
}

/// The texts of a list of filters that each have one.
proof fn lemma_list_json_ok(fs: Seq<JsonFilter>)
    requires
        forall|i: int| 0 <= i < fs.len() ==> filter_json(#[trigger] fs[i]) is Ok,
    ensures
        list_json(fs) is Ok,
    decreases fs.len(),
{
    if fs.len() > 0 {
        let w = fs.subrange(0, fs.len() - 1);
        assert forall|i: int| 0 <= i < w.len() implies filter_json(#[trigger] w[i]) is Ok by {
            assert(w[i] == fs[i]);
        }
        lemma_list_json_ok(w);
        assert(filter_json(fs[fs.len() - 1]) is Ok);
    }
}

/// The query pairs of a search for the tag with the given filter, sort, page and
/// context.
pub open spec fn search_pairs(
    tag_name: Seq<char>,
    json_filter: Option<Seq<char>>,
    sort: Seq<char>,
    limit: nat,
    offset: nat,
    app_name: Seq<char>,
) -> Seq<(Seq<char>, Seq<char>)> {
    pairs_of(
        seq![("q"@, tag_name), ("targets"@, SEARCH_TARGETS@)],
        SEARCH_FIELDS@,
        json_filter,
        sort,
        limit,
        offset,
        app_name,
    )
}

fn count_bound_exec(v: Option<usize>) -> (r: Bound<u64>)
    ensures
        r == count_bound(v),
{
    match v {
        Some(n) => Bound::Included(n as u64),
        None => Bound::Unbounded,
    }
}

fn time_bound_exec(v: Option<DateTime>) -> (r: Bound<DateTime>)
    ensures
        r == time_bound(v),
{
    match v {
        Some(t) => Bound::Included(t),
        None => Bound::Unbounded,
    }
}

/// Builds the request of one page of a search: videos tagged exactly
/// `criteria.tag_name`, within the criteria's ranges (`jsonFilter`, absent where the
/// criteria give no range), sorted by `sort_field` in `sort_direction`, `limit` results
/// from `offset` on.
pub fn build_search_request(
    app_name: &str,
    criteria: &SearchCriteria,
    sort_field: &SortField,
    sort_direction: SortDirection,
    limit: usize,
    offset: usize,
) -> (r: Result<SnapshotRequest, SnapshotRequestError>)
    ensures
        match search_filter_json(*criteria) {
            Err(e) => r matches Err(SnapshotRequestError::JsonFilterSerialization(x)) && x == e,
            Ok(filter) => {
                &&& valid_header_value(app_name@) ==> (r matches Ok(req) && req.uri@ == request_uri(
                    search_pairs(
                        criteria.tag_name@,
                        filter,
                        sort_sign(sort_direction) + sort_field_name(*sort_field),
                        limit as nat,
                        offset as nat,
                        app_name@,
                    ),
                ) && req.user_agent@ == app_name@)
                &&& !valid_header_value(app_name@) ==> r matches Err(
                    SnapshotRequestError::RequestBuild(_),
                )
            },
        },
{
    let mut ranges: Vec<JsonFilter> = Vec::new();
    if criteria.view_count_min.is_some() || criteria.view_count_max.is_some() {
        ranges.push(
            JsonFilter::Range(
                FilterRange::ViewCounter(
                    (count_bound_exec(criteria.view_count_min), count_bound_exec(criteria.view_count_max)),
                ),
            ),
        );
    }
    if criteria.start_time_from.is_some() || criteria.start_time_to.is_some() {
        ranges.push(
            JsonFilter::Range(
                FilterRange::StartTime(
                    (time_bound_exec(criteria.start_time_from), time_bound_exec(criteria.start_time_to)),
                ),
            ),
        );
    }
    assert(ranges@ =~= search_ranges(*criteria));
    let filter = if ranges.len() == 0 {
        None
    } else {
        let and = JsonFilter::And { filters: RefOrBox::Ref(&ranges) };
        match and.to_json() {
            Ok(t) => Some(t),
            Err(e) => return Err(SnapshotRequestError::JsonFilterSerialization(e)),
        }
    };
    let sort = sort_value(sort_field, sort_direction);
    let query = SnapshotSearchQuery {
        q: SnapshotSearchQueryTarget::Query { q: criteria.tag_name.as_str(), targets: SEARCH_TARGETS },
        fields: SEARCH_FIELDS,
        json_filter: filter,
        sort: sort.as_str(),
        limit,
        offset,
        context: app_name,
    };
    assert(query_pairs(query) =~= search_pairs(
        criteria.tag_name@,
        match filter {
            Some(f) => Some(f@),
            None => None,
        },
        sort@,
        limit as nat,
        offset as nat,
        app_name@,
    ));
    build_request(app_name, query)
}

/// The equality filter on a content id, as JSON text.
pub open spec fn content_id_filter_text(id: Seq<char>) -> Seq<char> {
    equal_text("contentId"@, json_string_literal(id))
}

/// How many ids one details request asks for: at most [`MAX_DETAILS_IDS`].
pub open spec fn details_count(n: nat) -> nat {
    if n < MAX_DETAILS_IDS {
        n
    } else {
        MAX_DETAILS_IDS as nat
    }
}

/// The `jsonFilter` of a details request for the ids: none for no id, the equality
/// filter on the one id, else the `or` of the equality filters on the first ids.
pub open spec fn details_filter_json(ids: Seq<Seq<char>>) -> Option<Seq<char>> {
    let n = details_count(ids.len());
    if n == 0 {
        None
    } else if n == 1 {
        Some(content_id_filter_text(ids[0]))
    } else {
        Some(or_text(ids.take(n as int).map_values(|id: Seq<char>| content_id_filter_text(id))))
    }
}

/// The query pairs of a details request for the ids.
pub open spec fn details_pairs(ids: Seq<Seq<char>>, app_name: Seq<char>) -> Seq<(Seq<char>, Seq<char>)> {
    pairs_of(
        seq![("q"@, ""@)],
        SEARCH_FIELDS@,
        details_filter_json(ids),
        DETAILS_SORT@,
        details_count(ids.len()),
        0,
        app_name,
    )
}

/// The ids seen as characters.
pub open spec fn ids_view(ids: Seq<String>) -> Seq<Seq<char>> {
    ids.map_values(|s: String| s@)
}

/// Builds the request for the details of the videos with the given content ids (the
/// first [`MAX_DETAILS_IDS`] of them): no text query, an equality filter on each id,
/// sorted by upload time, one result per id asked for.
pub fn build_get_details_request(app_name: &str, video_ids: &[String]) -> (r: Result<
    SnapshotRequest,
    SnapshotRequestError,
>)
    ensures
        valid_header_value(app_name@) ==> (r matches Ok(req) && req.uri@ == request_uri(
            details_pairs(ids_view(video_ids@), app_name@),
        ) && req.user_agent@ == app_name@),
        !valid_header_value(app_name@) ==> r matches Err(SnapshotRequestError::RequestBuild(_)),
{
    let ghost ids = ids_view(video_ids@);
    let n = if video_ids.len() < MAX_DETAILS_IDS {
        video_ids.len()
    } else {
        MAX_DETAILS_IDS
    };
    let mut filters: Vec<JsonFilter> = Vec::new();
    let ghost mut texts: Seq<Seq<char>> = Seq::empty();
    let mut i: usize = 0;
    while i < n
        invariant
            n <= video_ids.len(),
            i <= n,
            ids == ids_view(video_ids@),
            filters@.len() == i,
            forall|k: int|
                0 <= k < i ==> ((#[trigger] filters@[k]) matches JsonFilter::Equal(
                    FilterEqual::ContentId(c),
                ) && c@ == ids[k]),
            list_json(filters@) == Ok::<Seq<Seq<char>>, JsonFilterError>(texts),
            texts == ids.take(i as int).map_values(|id: Seq<char>| content_id_filter_text(id)),
        decreases n - i,
    {
        let ghost before = filters@;
        filters.push(JsonFilter::Equal(FilterEqual::ContentId(Cow::Borrowed(video_ids[i].as_str()))));
        proof {
            assert(filters@.subrange(0, filters@.len() - 1) == before);
            assert(ids[i as int] == video_ids@[i as int]@);
            let last = filters@[filters@.len() - 1];
            assert(filter_json(last) == Ok::<Seq<char>, JsonFilterError>(
                content_id_filter_text(ids[i as int]),
            ));
            assert(list_json(filters@) == Ok::<Seq<Seq<char>>, JsonFilterError>(
                texts.push(content_id_filter_text(ids[i as int])),
            ));
            texts = texts.push(content_id_filter_text(ids[i as int]));
            assert(ids.take(i + 1).map_values(|id: Seq<char>| content_id_filter_text(id)) =~= texts);
        }
        i += 1;
    }
    let filter = if n == 0 {
        None
    } else if n == 1 {
        match filters[0].to_json() {
            Ok(t) => Some(t),
            Err(e) => return Err(SnapshotRequestError::JsonFilterSerialization(e)),
        }
    } else {
        let or = JsonFilter::Or { filters: RefOrBox::Ref(&filters) };
        match or.to_json() {
            Ok(t) => Some(t),
            Err(e) => return Err(SnapshotRequestError::JsonFilterSerialization(e)),
        }
    };
    assert(match filter {
        Some(f) => details_filter_json(ids) == Some(f@),
        None => details_filter_json(ids) is None,
    });
    let query = SnapshotSearchQuery {
        q: SnapshotSearchQueryTarget::Empty,
        fields: SEARCH_FIELDS,
        json_filter: filter,
        sort: DETAILS_SORT,
        limit: n,
        offset: 0,
        context: app_name,
    };
    assert(query_pairs(query) =~= details_pairs(ids, app_name@));
    build_request(app_name, query)
}

} // verus!
