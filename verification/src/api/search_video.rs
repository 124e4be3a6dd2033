//! Validation of search parameters: what a search may ask for before it is sent.

use vstd::prelude::*;

use crate::api::ErrorResponseParts;
use crate::datetime::{later_than, DateTime};
use crate::snapshot::{SearchCriteria, BAD_REQUEST};
use crate::text::{chars_of, string_from_chars, trim, trim_chars};

verus! {

/// The longest tag name accepted, in UTF-8 bytes.
pub const MAX_TAG_NAME_BYTES: usize = 1000;

/// The fewest videos a search may ask for.
pub const MIN_VIDEO_COUNT: usize = 1;

/// The most videos a search may ask for.
pub const MAX_VIDEO_COUNT: usize = 100;

/// The parameters of a search as the client sends them.
#[derive(Debug, Clone)]
pub struct SearchParams {
    pub tag_name: String,
    pub video_count: usize,
    pub view_count_min: Option<usize>,
    pub view_count_max: Option<usize>,
    pub start_time_from: Option<DateTime>,
    pub start_time_to: Option<DateTime>,
}

/// Why search parameters were refused.
#[derive(Debug, Clone, Copy, PartialEq, Eq, Structural)]
pub enum InvalidSearchParamError {
    /// The tag name is empty, or longer than [`MAX_TAG_NAME_BYTES`].
    TagName,
    /// The number of videos is outside `1..=100`.
    VideoCount,
    /// The lower end of the view count range lies above its upper end.
    ViewCountRange,
    /// The start of the upload time range lies after its end.
    StartTimeRange,
}

/// The message that a refusal is answered with.
pub open spec fn invalid_param_message(e: InvalidSearchParamError) -> Seq<char> {
    match e {
        InvalidSearchParamError::TagName => "タグ名を入力してください"@,
        InvalidSearchParamError::VideoCount => "検索件数は1件以上100件以下で指定してください"@,
        InvalidSearchParamError::ViewCountRange => "再生数フィルタは下限が上限以下になるように指定してください"@,
        InvalidSearchParamError::StartTimeRange =>
            "アップロード日時フィルタは開始日時が終了日時以前になるように指定してください"@,
    }
}

impl InvalidSearchParamError {
    /// The message of this refusal, as `invalid_param_message` states it.
    pub fn message(&self) -> (r: String)
        ensures
            r@ == invalid_param_message(*self),
    {
        match self {
            InvalidSearchParamError::TagName => "タグ名を入力してください".to_owned(),
            InvalidSearchParamError::VideoCount => "検索件数は1件以上100件以下で指定してください".to_owned(),
            InvalidSearchParamError::ViewCountRange =>
                "再生数フィルタは下限が上限以下になるように指定してください".to_owned(),
            InvalidSearchParamError::StartTimeRange =>
                "アップロード日時フィルタは開始日時が終了日時以前になるように指定してください".to_owned(),
        }
    }

    /// What a refused search is answered: a bad request with the refusal's message.
    pub fn error_response(&self) -> (r: ErrorResponseParts)
        ensures
            r.status == BAD_REQUEST,
            r.message@ == invalid_param_message(*self),
            r.retry_after_seconds is None,
            !r.turnstile_recommended,
    {
        ErrorResponseParts {
            status: BAD_REQUEST,
            message: self.message(),
            retry_after_seconds: None,
            turnstile_recommended: false,
        }
    }
}

/// How many bytes UTF-8 takes for a character.
pub open spec fn utf8_width(c: char) -> nat {
    if (c as u32) < 0x80 {
        1
    } else if (c as u32) < 0x800 {
        2
    } else if (c as u32) < 0x10000 {
        3
    } else {
        4
    }
}

/// How many bytes UTF-8 takes for a text (what `str::len` returns).
pub open spec fn utf8_len(s: Seq<char>) -> nat
    decreases s.len(),
{
    if s.len() == 0 {
        0
    } else {
        utf8_len(s.drop_last()) + utf8_width(s.last())
    }
}

/// Whether the UTF-8 form of the characters is longer than `limit` bytes.
fn utf8_longer_than(cs: &Vec<char>, limit: usize) -> (r: bool)
    ensures
        r == (utf8_len(cs@) > limit),
{
    let mut total: usize = 0;
    let mut i: usize = 0;
    while i < cs.len()
        invariant
            i <= cs.len(),
            total == utf8_len(cs@.take(i as int)),
            total <= limit,
        decreases cs.len() - i,
    {
        let c = cs[i];
        let w: usize = if (c as u32) < 0x80 {
            1
        } else if (c as u32) < 0x800 {
            2
        } else if (c as u32) < 0x10000 {
            3
        } else {
            4
        };
        assert(cs@.take(i + 1).drop_last() == cs@.take(i as int));
        proof {
            lemma_utf8_len_monotone(cs@, i as int + 1);
        }
        if w > limit - total {
            return true;
        }
        total = total + w;
        i += 1;
    }
    assert(cs@.take(cs.len() as int) == cs@);
    false
}

/// The UTF-8 length of a text is at least that of each of its prefixes.
proof fn lemma_utf8_len_monotone(s: Seq<char>, k: int)
    requires
        0 <= k <= s.len(),
    ensures
        utf8_len(s.take(k)) <= utf8_len(s),
    decreases s.len() - k,
{
    if k < s.len() {
        lemma_utf8_len_monotone(s, k + 1);
        assert(s.take(k + 1).drop_last() == s.take(k));
    } else {
        assert(s.take(k) == s);
    }
}

/// Removes the leading and trailing whitespace of `s`.
pub fn trim_in_place(s: &mut String)
    ensures
        final(s)@ == trim(old(s)@),
{
    let t = trim_chars(s.as_str());
    *s = string_from_chars(t.as_slice());
}

/// Why the parameters are refused, checked in this order: the trimmed tag name must be
/// non-empty and at most [`MAX_TAG_NAME_BYTES`] bytes, the number of videos within
/// `1..=100`, the view count range and the upload time range not reversed.
pub open spec fn params_error(p: SearchParams) -> Option<InvalidSearchParamError> {
    let tag = trim(p.tag_name@);
    if tag.len() == 0 || utf8_len(tag) > MAX_TAG_NAME_BYTES {
        Some(InvalidSearchParamError::TagName)
    } else if p.video_count < MIN_VIDEO_COUNT || p.video_count > MAX_VIDEO_COUNT {
        Some(InvalidSearchParamError::VideoCount)
    } else if (match (p.view_count_min, p.view_count_max) {
        (Some(min), Some(max)) => min > max,
        _ => false,
    }) {
        Some(InvalidSearchParamError::ViewCountRange)
    } else if (match (p.start_time_from, p.start_time_to) {
        (Some(from), Some(to)) => later_than(from, to),
        _ => false,
    }) {
        Some(InvalidSearchParamError::StartTimeRange)
    } else {
        None
    }
}

/// The criteria of a search with valid parameters: the tag name trimmed, the ranges as
/// given; or why the parameters are refused, as `params_error` states it.
pub fn search_criteria_from(params: SearchParams) -> (r: Result<SearchCriteria, InvalidSearchParamError>)
    ensures
        match r {
            Ok(c) => params_error(params) is None && c.tag_name@ == trim(params.tag_name@)
                && c.view_count_min == params.view_count_min && c.view_count_max
                == params.view_count_max && c.start_time_from == params.start_time_from
                && c.start_time_to == params.start_time_to,
            Err(e) => params_error(params) == Some(e),
        },
{
    let SearchParams {
        tag_name,
        video_count,
        view_count_min,
        view_count_max,
        start_time_from,
        start_time_to,
    } = params;
    let mut tag_name = tag_name;
    trim_in_place(&mut tag_name);
    let cs = chars_of(tag_name.as_str());
    if cs.len() == 0 {
        return Err(InvalidSearchParamError::TagName);
    }
    if utf8_longer_than(&cs, MAX_TAG_NAME_BYTES) {
        return Err(InvalidSearchParamError::TagName);
    }
    if video_count < MIN_VIDEO_COUNT || video_count > MAX_VIDEO_COUNT {
        return Err(InvalidSearchParamError::VideoCount);
    }
    match (view_count_min, view_count_max) {
        (Some(min), Some(max)) => {
            if min > max {
                return Err(InvalidSearchParamError::ViewCountRange);
            }
        },
        _ => {},
    }
    match (start_time_from, start_time_to) {
        (Some(from), Some(to)) => {
            if from.is_later_than(&to) {
                return Err(InvalidSearchParamError::StartTimeRange);
            }
        },
        _ => {},
    }
    Ok(SearchCriteria { tag_name, view_count_min, view_count_max, start_time_from, start_time_to })
}

} // verus!
