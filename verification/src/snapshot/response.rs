//! Responses of the video search snapshot API, as plain data.

use vstd::prelude::*;

use crate::logic::ContentId;
use crate::text::{chars_of, is_unicode_whitespace, is_whitespace, string_from_chars};

verus! {

/// One video of a search response.
#[derive(Debug, Clone, PartialEq, Eq)]
pub struct VideoSearchResult {
    pub content_id: String,
    pub title: String,
    pub view_counter: u64,
    pub comment_counter: u64,
    pub mylist_counter: u64,
    pub like_counter: u64,
    pub length_seconds: u64,
    pub thumbnail_url: String,
    pub tags: Vec<String>,
}

/// A [`VideoSearchResult`] seen as mathematical values.
pub struct VideoSearchResultView {
    pub content_id: Seq<char>,
    pub title: Seq<char>,
    pub view_counter: u64,
    pub comment_counter: u64,
    pub mylist_counter: u64,
    pub like_counter: u64,
    pub length_seconds: u64,
    pub thumbnail_url: Seq<char>,
    pub tags: Seq<Seq<char>>,
}

impl View for VideoSearchResult {
    type V = VideoSearchResultView;

    open spec fn view(&self) -> VideoSearchResultView {
        VideoSearchResultView {
            content_id: self.content_id@,
            title: self.title@,
            view_counter: self.view_counter,
            comment_counter: self.comment_counter,
            mylist_counter: self.mylist_counter,
            like_counter: self.like_counter,
            length_seconds: self.length_seconds,
            thumbnail_url: self.thumbnail_url@,
            tags: self.tags@.map_values(|t: String| t@),
        }
    }
}

impl VideoSearchResult {
    /// A copy of this result, field by field.
    pub fn duplicate(&self) -> (r: VideoSearchResult)
        ensures
            r@ == self@,
    {
        let mut tags: Vec<String> = Vec::new();
        let mut i: usize = 0;
        while i < self.tags.len()
            invariant
                i <= self.tags.len(),
                tags.len() == i,
                forall|j: int| 0 <= j < i ==> (#[trigger] tags@[j])@ == self.tags@[j]@,
            decreases self.tags.len() - i,
        {
            let tag = self.tags[i].clone();
            tags.push(tag);
            i += 1;
        }
        assert(tags@.map_values(|t: String| t@) =~= self.tags@.map_values(|t: String| t@));
        VideoSearchResult {
            content_id: self.content_id.clone(),
            title: self.title.clone(),
            view_counter: self.view_counter,
            comment_counter: self.comment_counter,
            mylist_counter: self.mylist_counter,
            like_counter: self.like_counter,
            length_seconds: self.length_seconds,
            thumbnail_url: self.thumbnail_url.clone(),
            tags,
        }
    }
}

impl ContentId for VideoSearchResult {
    open spec fn spec_content_id(&self) -> Seq<char> {
        self.content_id@
    }

    fn content_id(&self) -> (r: &str) {
        self.content_id.as_str()
    }
}

/// The metadata of a successful response.
#[derive(Debug, Clone)]
pub struct OkMeta {
    pub status: u16,
    pub total_count: usize,
    pub id: String,
}

/// The metadata of a failed response.
#[derive(Debug, Clone)]
pub struct ErrorMeta {
    pub status: u16,
    pub error_code: String,
    pub error_message: String,
}

/// A successful response: its metadata and the videos found.
#[derive(Debug, Clone)]
pub struct OkResponse {
    pub meta: OkMeta,
    pub data: Vec<VideoSearchResult>,
}

/// A failed response.
#[derive(Debug, Clone)]
pub struct ErrorResponse {
    pub meta: ErrorMeta,
}

/// A response of either kind: the body of a success status, or that of any other.
pub enum SnapshotResponse {
    Success(OkResponse),
    Error(ErrorResponse),
}

/// Whether an HTTP status is in the success class `200..=299`, whose responses carry an
/// [`OkResponse`] body; other responses carry an [`ErrorResponse`] body.
pub fn is_success_status(status: u16) -> (r: bool)
    ensures
        r == (200 <= status <= 299),
{
    200 <= status && status <= 299
}

/// The words of `s`, as `str::split_whitespace` yields them, together with the word
/// being read at the end: reading a whitespace character ends the current word, any
/// other character extends it.
pub open spec fn split_state(s: Seq<char>) -> (Seq<Seq<char>>, Seq<char>)
    decreases s.len(),
{
    if s.len() == 0 {
        (Seq::empty(), Seq::empty())
    } else {
        let (words, current) = split_state(s.drop_last());
        if is_unicode_whitespace(s.last()) {
            if current.len() > 0 {
                (words.push(current), Seq::empty())
            } else {
                (words, Seq::empty())
            }
        } else {
            (words, current.push(s.last()))
        }
    }
}

/// The maximal runs of non-whitespace characters of `s`, in order.
pub open spec fn whitespace_words(s: Seq<char>) -> Seq<Seq<char>> {
    let (words, current) = split_state(s);
    if current.len() > 0 {
        words.push(current)
    } else {
        words
    }
}

/// Every word is non-empty and free of whitespace.
pub proof fn lemma_split_state_words(s: Seq<char>)
    ensures
        forall|i: int|
            0 <= i < split_state(s).0.len() ==> (#[trigger] split_state(s).0[i]).len() > 0,
        forall|i: int, j: int|
            0 <= i < split_state(s).0.len() && 0 <= j < split_state(s).0[i].len()
                ==> !is_unicode_whitespace(#[trigger] split_state(s).0[i][j]),
        forall|j: int|
            0 <= j < split_state(s).1.len() ==> !is_unicode_whitespace(#[trigger] split_state(s).1[j]),
    decreases s.len(),
{
    if s.len() > 0 {
        lemma_split_state_words(s.drop_last());
        let (words, current) = split_state(s.drop_last());
        if is_unicode_whitespace(s.last()) && current.len() > 0 {
            assert(split_state(s).0 == words.push(current));
            assert forall|i: int| 0 <= i < words.push(current).len() implies (#[trigger] words.push(
                current,
            )[i]).len() > 0 by {
                if i < words.len() {
                    assert(words.push(current)[i] == words[i]);
                }
            }
            assert forall|i: int, j: int|
                0 <= i < words.push(current).len() && 0 <= j < words.push(current)[i].len()
                    implies !is_unicode_whitespace(#[trigger] words.push(current)[i][j]) by {
                if i < words.len() {
                    assert(words.push(current)[i] == words[i]);
                }
            }
        }
    }
}

/// Splits a tag list at Unicode whitespace, dropping empty pieces.
pub fn split_tags(tags: &str) -> (r: Vec<String>)
    ensures
        r@.map_values(|t: String| t@) == whitespace_words(tags@),
{
    let cs = chars_of(tags);
    let mut words: Vec<String> = Vec::new();
    let mut current: Vec<char> = Vec::new();
    let mut i: usize = 0;
    assert(cs@.take(0) == Seq::<char>::empty());
    while i < cs.len()
        invariant
            i <= cs.len(),
            cs@ == tags@,
            split_state(cs@.take(i as int)) == (words@.map_values(|t: String| t@), current@),
        decreases cs.len() - i,
    {
        let c = cs[i];
        assert(cs@.take(i + 1).drop_last() == cs@.take(i as int));
        assert(cs@.take(i + 1).last() == c);
        if is_whitespace(c) {
            if current.len() > 0 {
                let word = string_from_chars(current.as_slice());
                let ghost before = words@;
                words.push(word);
                assert(words@.map_values(|t: String| t@) == before.map_values(|t: String| t@).push(
                    current@,
                ));
            }
            current = Vec::new();
        } else {
            current.push(c);
        }
        i += 1;
    }
    assert(cs@.take(cs.len() as int) == cs@);
    if current.len() > 0 {
        let word = string_from_chars(current.as_slice());
        let ghost before = words@;
        words.push(word);
        assert(words@.map_values(|t: String| t@) == before.map_values(|t: String| t@).push(
            current@,
        ));
    }
    words
}

/// Every tag that splitting yields is non-empty and free of whitespace.
pub proof fn lemma_whitespace_words(s: Seq<char>)
    ensures
        forall|i: int| 0 <= i < whitespace_words(s).len() ==> (#[trigger] whitespace_words(s)[i]).len() > 0,
        forall|i: int, j: int|
            0 <= i < whitespace_words(s).len() && 0 <= j < whitespace_words(s)[i].len()
                ==> !is_unicode_whitespace(#[trigger] whitespace_words(s)[i][j]),
{
    lemma_split_state_words(s);
    let (words, current) = split_state(s);
    if current.len() > 0 {
        let w = words.push(current);
        assert forall|i: int| 0 <= i < w.len() implies (#[trigger] w[i]).len() > 0 by {
            if i < words.len() {
                assert(w[i] == words[i]);
            }
        }
        assert forall|i: int, j: int| 0 <= i < w.len() && 0 <= j < w[i].len() implies !is_unicode_whitespace(
            #[trigger] w[i][j],
        ) by {
            if i < words.len() {
                assert(w[i] == words[i]);
            }
        }
    }
}

} // verus!
