//! Searching the video snapshot API: criteria, errors and the handling of results.

use vstd::prelude::*;

use crate::datetime::DateTime;
use crate::logic::SearchPage;
use crate::text::{append_chars, text_eq};
use request::{SnapshotRequestError, SortField};
use response::{ErrorResponse, OkResponse, SnapshotResponse, VideoSearchResult, VideoSearchResultView};

pub mod request;
pub mod response;

verus! {

/// What a search asks for: videos tagged exactly `tag_name`, optionally within a range
/// of view counts and a range of upload times (both ends inclusive).
#[derive(Debug, Clone, PartialEq, Eq)]
pub struct SearchCriteria {
    pub tag_name: String,
    pub view_count_min: Option<usize>,
    pub view_count_max: Option<usize>,
    pub start_time_from: Option<DateTime>,
    pub start_time_to: Option<DateTime>,
}

/// The most content ids that one details request carries.
pub const GET_DETAILS_CHUNK_SIZE: usize = 25;

/// The HTTP status of a bad request.
pub const BAD_REQUEST: u16 = 400;

/// The HTTP status of an internal error.
pub const INTERNAL_SERVER_ERROR: u16 = 500;

/// The HTTP status of a service that is unavailable.
pub const SERVICE_UNAVAILABLE: u16 = 503;

/// The sort fields that random searches pick from.
pub fn sort_specs() -> (r: Vec<SortField>)
    ensures
        r@ == seq![
            SortField::ViewCounter,
            SortField::MylistCounter,
            SortField::LengthSeconds,
            SortField::StartTime,
            SortField::CommentCounter,
            SortField::LastCommentTime,
        ],
{
    let r = vec![
        SortField::ViewCounter,
        SortField::MylistCounter,
        SortField::LengthSeconds,
        SortField::StartTime,
        SortField::CommentCounter,
        SortField::LastCommentTime,
    ];
    assert(r@ =~= seq![
        SortField::ViewCounter,
        SortField::MylistCounter,
        SortField::LengthSeconds,
        SortField::StartTime,
        SortField::CommentCounter,
        SortField::LastCommentTime,
    ]);
    r
}

/// Why a search failed: the request could not be built, the HTTP client failed, the
/// response was not the JSON expected, or the API answered with an error.
#[derive(Debug)]
pub enum SearchError<H> {
    Request(SnapshotRequestError),
    HttpClient(H),
    InvalidSnapshotResponse(serde_json::Error),
    SnapshotApi { status: u16, error_code: String, error_message: String },
}

/// Whether an HTTP status is a client error (`400..=499`).
pub open spec fn is_client_error(status: u16) -> bool {
    400 <= status <= 499
}

/// The status that an error of the API is recorded with: the status it answered where
/// that is a valid HTTP status (`100..=999`), else an internal error.
pub open spec fn recorded_status(status: u16) -> u16 {
    if 100 <= status <= 999 {
        status
    } else {
        INTERNAL_SERVER_ERROR
    }
}

/// The status that a failed search is answered with: a bad request where the API
/// refused the request as a client error, unavailable where the API was unavailable,
/// else an internal error.
pub open spec fn search_error_status<H>(e: SearchError<H>) -> u16 {
    match e {
        SearchError::SnapshotApi { status, .. } => if is_client_error(status) {
            BAD_REQUEST
        } else if status == SERVICE_UNAVAILABLE {
            SERVICE_UNAVAILABLE
        } else {
            INTERNAL_SERVER_ERROR
        },
        _ => INTERNAL_SERVER_ERROR,
    }
}

/// The message that a failed search is answered with: for a refused or unavailable
/// search the API's error code and message, else a generic message.
pub open spec fn search_error_message<H>(e: SearchError<H>) -> Seq<char> {
    match e {
        SearchError::SnapshotApi { status, error_code, error_message } => if is_client_error(status) {
            "検索サーバに検索条件が拒否されました: "@ + error_code@ + ": "@ + error_message@
        } else if status == SERVICE_UNAVAILABLE {
            "検索サーバを利用できません: "@ + error_code@ + ": "@ + error_message@
        } else {
            "検索中にエラーが発生しました"@
        },
        _ => "検索中にエラーが発生しました"@,
    }
}

/// Whether the cause of a failed search stays hidden from the client (and is logged):
/// all but refused and unavailable searches.
pub open spec fn search_error_hidden<H>(e: SearchError<H>) -> bool {
    match e {
        SearchError::SnapshotApi { status, .. } => !is_client_error(status) && status
            != SERVICE_UNAVAILABLE,
        _ => true,
    }
}

impl<H> SearchError<H> {
    /// An error of the HTTP client.
    pub fn from_http_client(error: H) -> (r: SearchError<H>)
        ensures
            r == SearchError::HttpClient(error),
    {
        SearchError::HttpClient(error)
    }

    /// The HTTP status to answer with, as `search_error_status` states it.
    pub fn status_code(&self) -> (r: u16)
        ensures
            r == search_error_status(*self),
    {
        match self {
            SearchError::SnapshotApi { status, .. } => if 400 <= *status && *status <= 499 {
                BAD_REQUEST
            } else if *status == SERVICE_UNAVAILABLE {
                SERVICE_UNAVAILABLE
            } else {
                INTERNAL_SERVER_ERROR
            },
            _ => INTERNAL_SERVER_ERROR,
        }
    }

    /// The message to answer with, as `search_error_message` states it.
    pub fn public_message(&self) -> (r: String)
        ensures
            r@ == search_error_message(*self),
    {
        match self {
            SearchError::SnapshotApi { status, error_code, error_message } => {
                if 400 <= *status && *status <= 499 {
                    let mut out = "検索サーバに検索条件が拒否されました: ".to_owned();
                    append_chars(&mut out, error_code.as_str());
                    append_chars(&mut out, ": ");
                    append_chars(&mut out, error_message.as_str());
                    out
                } else if *status == SERVICE_UNAVAILABLE {
                    let mut out = "検索サーバを利用できません: ".to_owned();
                    append_chars(&mut out, error_code.as_str());
                    append_chars(&mut out, ": ");
                    append_chars(&mut out, error_message.as_str());
                    out
                } else {
                    "検索中にエラーが発生しました".to_owned()
                }
            },
            _ => "検索中にエラーが発生しました".to_owned(),
        }
    }

    /// Whether the cause stays hidden from the client, as `search_error_hidden` states it.
    pub fn is_internal_hidden(&self) -> (r: bool)
        ensures
            r == search_error_hidden(*self),
    {
        match self {
            SearchError::SnapshotApi { status, .. } => !(400 <= *status && *status <= 499) && *status
                != SERVICE_UNAVAILABLE,
            _ => true,
        }
    }
}

/// A failed search is answered with an internal error exactly when its cause is hidden,
/// and then with the generic message.
pub proof fn lemma_hidden_errors_are_internal<H>(e: SearchError<H>)
    ensures
        search_error_hidden(e) <==> search_error_status(e) == INTERNAL_SERVER_ERROR,
        search_error_hidden(e) ==> search_error_message(e) == "検索中にエラーが発生しました"@,
{
}

impl<H> From<ErrorResponse> for SearchError<H> {
    fn from(response: ErrorResponse) -> (r: SearchError<H>) {
        let status = if 100 <= response.meta.status && response.meta.status <= 999 {
            response.meta.status
        } else {
            INTERNAL_SERVER_ERROR
        };
        SearchError::SnapshotApi {
            status,
            error_code: response.meta.error_code,
            error_message: response.meta.error_message,
        }
    }
}

impl<H> vstd::std_specs::convert::FromSpecImpl<ErrorResponse> for SearchError<H> {
    open spec fn obeys_from_spec() -> bool {
        true
    }

    open spec fn from_spec(response: ErrorResponse) -> SearchError<H> {
        SearchError::SnapshotApi {
            status: recorded_status(response.meta.status),
            error_code: response.meta.error_code,
            error_message: response.meta.error_message,
        }
    }
}

/// The successful body of a response, or the API's error as a [`SearchError`].
pub fn ok_response<H>(response: SnapshotResponse) -> (r: Result<OkResponse, SearchError<H>>)
    ensures
        match response {
            SnapshotResponse::Success(ok) => r == Ok::<OkResponse, SearchError<H>>(ok),
            SnapshotResponse::Error(e) => r == Err::<OkResponse, SearchError<H>>(
                SearchError::SnapshotApi {
                    status: recorded_status(e.meta.status),
                    error_code: e.meta.error_code,
                    error_message: e.meta.error_message,
                },
            ),
        },
{
    match response {
        SnapshotResponse::Success(ok) => Ok(ok),
        SnapshotResponse::Error(e) => Err(SearchError::from(e)),
    }
}

/// A page of search results from a successful response: its total count and its videos.
pub fn search_page(response: OkResponse) -> (r: SearchPage<VideoSearchResult>)
    ensures
        r.total_count == response.meta.total_count,
        r.result == response.data,
{
    SearchPage { total_count: response.meta.total_count, result: response.data }
}

// ---------------------------------------------------------------------------
// Video details by content id
// ---------------------------------------------------------------------------

/// A list of (content id, video) pairs in which each id is the video's own and no id
/// occurs twice: a map from ids to videos.
pub open spec fn details_wf(v: Seq<(String, VideoSearchResult)>) -> bool {
    &&& forall|i: int| 0 <= i < v.len() ==> (#[trigger] v[i]).0@ == v[i].1.content_id@
    &&& forall|a: int, b: int| 0 <= a < b < v.len() ==> (#[trigger] v[a]).0@ != (#[trigger] v[b]).0@
}

/// The map that a list of pairs stands for, each video seen by its view.
pub open spec fn details_map(v: Seq<(String, VideoSearchResult)>) -> Map<Seq<char>, VideoSearchResultView>
    decreases v.len(),
{
    if v.len() == 0 {
        Map::empty()
    } else {
        details_map(v.drop_last()).insert(v.last().0@, v.last().1@)
    }
}

/// `m` with each video inserted under its content id, in order: a later video replaces
/// an earlier one with the same id.
pub open spec fn with_details(m: Map<Seq<char>, VideoSearchResultView>, items: Seq<VideoSearchResult>) -> Map<
    Seq<char>,
    VideoSearchResultView,
>
    decreases items.len(),
{
    if items.len() == 0 {
        m
    } else {
        with_details(m, items.drop_last()).insert(items.last().content_id@, items.last()@)
    }
}

/// Which ids the map of a list holds, and, without repeated ids, what it holds for each.
proof fn lemma_details_map(v: Seq<(String, VideoSearchResult)>)
    ensures
        forall|k: Seq<char>|
            #[trigger] details_map(v).dom().contains(k) <==> exists|i: int|
                0 <= i < v.len() && (#[trigger] v[i]).0@ == k,
        details_wf(v) ==> forall|i: int|
            0 <= i < v.len() ==> #[trigger] details_map(v)[v[i].0@] == v[i].1@,
    decreases v.len(),
{
    if v.len() > 0 {
        let w = v.drop_last();
        lemma_details_map(w);
        assert forall|k: Seq<char>| #[trigger]
            details_map(v).dom().contains(k) <==> exists|i: int|
                0 <= i < v.len() && (#[trigger] v[i]).0@ == k by {
            if details_map(w).dom().contains(k) {
                let i = choose|i: int| 0 <= i < w.len() && (#[trigger] w[i]).0@ == k;
                assert(v[i] == w[i]);
            }
            if exists|i: int| 0 <= i < v.len() && (#[trigger] v[i]).0@ == k {
                let i = choose|i: int| 0 <= i < v.len() && (#[trigger] v[i]).0@ == k;
                if i < v.len() - 1 {
                    assert(w[i] == v[i]);
                }
            }
        }
        if details_wf(v) {
            assert forall|i: int| 0 <= i < w.len() implies (#[trigger] w[i]).0@ == w[i].1.content_id@ by {
                assert(w[i] == v[i]);
            }
            assert forall|a: int, b: int| 0 <= a < b < w.len() implies (#[trigger] w[a]).0@ != (
            #[trigger] w[b]).0@ by {
                assert(w[a] == v[a]);
                assert(w[b] == v[b]);
            }
            assert(details_wf(w));
            assert forall|i: int| 0 <= i < v.len() implies #[trigger] details_map(v)[v[i].0@]
                == v[i].1@ by {
                if i < v.len() - 1 {
                    assert(w[i] == v[i]);
                    assert(v[i].0@ != v[v.len() - 1].0@);
                    assert(details_map(w)[w[i].0@] == w[i].1@);
                }
            }
        }
    }
}

/// Inserts a video under its content id, replacing the one held under that id.
pub fn insert_detail(map: &mut Vec<(String, VideoSearchResult)>, item: VideoSearchResult)
    requires
        details_wf(old(map)@),
    ensures
        details_wf(final(map)@),
        details_map(final(map)@) == details_map(old(map)@).insert(item.content_id@, item@),
{
    proof {
        lemma_details_map(map@);
    }
    let mut i: usize = 0;
    while i < map.len()
        invariant
            i <= map.len(),
            map@ == old(map)@,
            details_wf(old(map)@),
            forall|j: int| 0 <= j < i ==> (#[trigger] map@[j]).0@ != item.content_id@,
        decreases map.len() - i,
    {
        if map[i].0 == item.content_id {
            let ghost before = map@;
            let key = item.content_id.clone();
            let ghost k = key@;
            let ghost v = item@;
            map.set(i, (key, item));
            proof {
                lemma_details_map(map@);
                lemma_details_map(before);
                assert forall|a: int, b: int| 0 <= a < b < map@.len() implies (#[trigger] map@[a]).0@
                    != (#[trigger] map@[b]).0@ by {
                    assert(before[a].0@ != before[b].0@);
                }
                assert(details_wf(map@));
                assert forall|key2: Seq<char>| #[trigger]
                    details_map(map@).dom().contains(key2) <==> details_map(before).insert(k, v).dom().contains(key2) by {
                    if exists|j: int| 0 <= j < before.len() && (#[trigger] before[j]).0@ == key2 {
                        let j = choose|j: int| 0 <= j < before.len() && (#[trigger] before[j]).0@ == key2;
                        assert(map@[j].0@ == key2);
                    }
                    if key2 == k {
                        assert(map@[i as int].0@ == key2);
                    }
                    if exists|j: int| 0 <= j < map@.len() && (#[trigger] map@[j]).0@ == key2 {
                        let j = choose|j: int| 0 <= j < map@.len() && (#[trigger] map@[j]).0@ == key2;
                        if j != i {
                            assert(before[j].0@ == key2);
                        }
                    }
                }
                assert forall|key2: Seq<char>| #[trigger]
                    details_map(map@).dom().contains(key2) implies details_map(map@)[key2]
                    == details_map(before).insert(k, v)[key2] by {
                    let j = choose|j: int| 0 <= j < map@.len() && (#[trigger] map@[j]).0@ == key2;
                    assert(details_map(map@)[map@[j].0@] == map@[j].1@);
                    if j != i {
                        assert(before[j] == map@[j]);
                        assert(details_map(before)[before[j].0@] == before[j].1@);
                    }
                }
                assert(details_map(map@) =~= details_map(before).insert(k, v));
            }
            return;
        }
        i += 1;
    }
    let ghost before = map@;
    let key = item.content_id.clone();
    let ghost k = key@;
    let ghost v = item@;
    map.push((key, item));
    proof {
        assert(map@.drop_last() == before);
        assert(map@.last() == map@[map@.len() - 1]);
        assert forall|a: int, b: int| 0 <= a < b < map@.len() implies (#[trigger] map@[a]).0@
            != (#[trigger] map@[b]).0@ by {
            if b == map@.len() - 1 {
                assert(before[a] == map@[a]);
            } else {
                assert(before[a] == map@[a]);
                assert(before[b] == map@[b]);
            }
        }
        assert(details_wf(map@));
    }
}

/// Inserts the videos one after another, as `HashMap::extend` does.
pub fn extend_details(map: &mut Vec<(String, VideoSearchResult)>, items: Vec<VideoSearchResult>)
    requires
        details_wf(old(map)@),
    ensures
        details_wf(final(map)@),
        details_map(final(map)@) == with_details(details_map(old(map)@), items@),
{
    let ghost start = details_map(map@);
    let ghost all = items@;
    for item in it: items
        invariant
            details_wf(map@),
            it.seq() == all,
            details_map(map@) == with_details(start, all.take(it.index() as int)),
    {
        proof {
            assert(all.take(it.index() + 1).drop_last() == all.take(it.index() as int));
            assert(all.take(it.index() + 1).last() == item);
        }
        insert_detail(map, item);
    }
    assert(all.take(all.len() as int) == all);
}

/// The videos of a successful response by content id; where an id occurs twice, the
/// later video is kept.
pub fn snapshot_details_to_map(json: OkResponse) -> (r: Vec<(String, VideoSearchResult)>)
    ensures
        details_wf(r@),
        details_map(r@) == with_details(Map::empty(), json.data@),
{
    let mut map: Vec<(String, VideoSearchResult)> = Vec::new();
    assert(details_map(map@) =~= Map::<Seq<char>, VideoSearchResultView>::empty());
    extend_details(&mut map, json.data);
    map
}

/// The video held under a content id, if any.
pub fn find_detail<'m>(map: &'m Vec<(String, VideoSearchResult)>, id: &str) -> (r: Option<
    &'m VideoSearchResult,
>)
    requires
        details_wf(map@),
    ensures
        match r {
            Some(v) => details_map(map@).contains_key(id@) && v@ == details_map(map@)[id@],
            None => !details_map(map@).contains_key(id@),
        },
{
    proof {
        lemma_details_map(map@);
    }
    let mut i: usize = 0;
    while i < map.len()
        invariant
            i <= map.len(),
            details_wf(map@),
            forall|j: int| 0 <= j < i ==> (#[trigger] map@[j]).0@ != id@,
        decreases map.len() - i,
    {
        if text_eq(map[i].0.as_str(), id) {
            proof {
                lemma_details_map(map@);
            }
            return Some(&map[i].1);
        }
        i += 1;
    }
    None
}

/// For each id in order, the video held under it; ids without one are skipped.
pub open spec fn contents_for_ids(ids: Seq<Seq<char>>, m: Map<Seq<char>, VideoSearchResultView>) -> Seq<
    VideoSearchResultView,
>
    decreases ids.len(),
{
    if ids.len() == 0 {
        Seq::empty()
    } else {
        let before = contents_for_ids(ids.drop_last(), m);
        if m.contains_key(ids.last()) {
            before.push(m[ids.last()])
        } else {
            before
        }
    }
}

/// The videos of the ids, in the order of the ids, that the details hold.
pub fn contents_for(ids: &[String], details: &Vec<(String, VideoSearchResult)>) -> (r: Vec<
    VideoSearchResult,
>)
    requires
        details_wf(details@),
    ensures
        r@.map_values(|v: VideoSearchResult| v@) == contents_for_ids(
            ids@.map_values(|s: String| s@),
            details_map(details@),
        ),
{
    let ghost idv = ids@.map_values(|s: String| s@);
    let mut out: Vec<VideoSearchResult> = Vec::new();
    let mut i: usize = 0;
    while i < ids.len()
        invariant
            i <= ids.len(),
            details_wf(details@),
            idv == ids@.map_values(|s: String| s@),
            out@.map_values(|v: VideoSearchResult| v@) == contents_for_ids(
                idv.take(i as int),
                details_map(details@),
            ),
        decreases ids.len() - i,
    {
        proof {
            assert(idv.take(i + 1).drop_last() == idv.take(i as int));
            assert(idv.take(i + 1).last() == ids@[i as int]@);
        }
        match find_detail(details, ids[i].as_str()) {
            Some(v) => {
                let ghost before = out@;
                out.push(v.duplicate());
                assert(out@.map_values(|v: VideoSearchResult| v@) =~= before.map_values(
                    |v: VideoSearchResult| v@,
                ).push(v@));
            },
            None => {},
        }
        i += 1;
    }
    assert(idv.take(ids.len() as int) == idv);
    out
}

/// The chunks one after another.
pub open spec fn joined_chunks(chunks: Seq<Vec<String>>) -> Seq<String>
    decreases chunks.len(),
{
    if chunks.len() == 0 {
        Seq::empty()
    } else {
        joined_chunks(chunks.drop_last()) + chunks.last()@
    }
}

/// The content ids in chunks of [`GET_DETAILS_CHUNK_SIZE`], in order: all chunks full
/// but the last. Joined, the chunks give back the ids, and no chunk is empty.
pub fn details_chunks(ids: &[String]) -> (r: Vec<Vec<String>>)
    ensures
        joined_chunks(r@) == ids@,
        forall|c: int| 0 <= c < r@.len() ==> 0 < (#[trigger] r@[c]).len() <= GET_DETAILS_CHUNK_SIZE,
        r@.len() == (ids@.len() + GET_DETAILS_CHUNK_SIZE - 1) / GET_DETAILS_CHUNK_SIZE as int,
        forall|c: int|
            0 <= c < r@.len() ==> (#[trigger] r@[c])@ == ids@.subrange(
                c * GET_DETAILS_CHUNK_SIZE,
                if (c + 1) * GET_DETAILS_CHUNK_SIZE <= ids@.len() {
                    (c + 1) * GET_DETAILS_CHUNK_SIZE
                } else {
                    ids@.len() as int
                },
            ),
{
    let mut chunks: Vec<Vec<String>> = Vec::new();
    let mut start: usize = 0;
    while start < ids.len()
        invariant
            start <= ids.len(),
            start < ids.len() ==> start == chunks@.len() * GET_DETAILS_CHUNK_SIZE,
            chunks@.len() == (start + GET_DETAILS_CHUNK_SIZE - 1) / GET_DETAILS_CHUNK_SIZE as int,
            joined_chunks(chunks@) == ids@.subrange(0, start as int),
            forall|c: int| 0 <= c < chunks@.len() ==> 0 < (#[trigger] chunks@[c]).len() <= GET_DETAILS_CHUNK_SIZE,
            forall|c: int|
                0 <= c < chunks@.len() ==> (#[trigger] chunks@[c])@ == ids@.subrange(
                    c * GET_DETAILS_CHUNK_SIZE,
                    if (c + 1) * GET_DETAILS_CHUNK_SIZE <= ids@.len() {
                        (c + 1) * GET_DETAILS_CHUNK_SIZE
                    } else {
                        ids@.len() as int
                    },
                ),
        decreases ids.len() - start,
    {
        let end = if ids.len() - start > GET_DETAILS_CHUNK_SIZE {
            start + GET_DETAILS_CHUNK_SIZE
        } else {
            ids.len()
        };
        let mut chunk: Vec<String> = Vec::new();
        let mut j: usize = start;
        while j < end
            invariant
                start <= j <= end,
                end <= ids.len(),
                chunk@ == ids@.subrange(start as int, j as int),
            decreases end - j,
        {
            chunk.push(ids[j].clone());
            assert(chunk@ =~= ids@.subrange(start as int, j + 1));
            j += 1;
        }
        let ghost before = chunks@;
        chunks.push(chunk);
        proof {
            assert(chunks@.drop_last() == before);
            assert(ids@.subrange(0, end as int) =~= ids@.subrange(0, start as int) + ids@.subrange(
                start as int,
                end as int,
            ));
        }
        start = end;
    }
    assert(ids@.subrange(0, ids@.len() as int) == ids@);
    chunks
}

/// The details that replies give, one after another: each reply's videos inserted in
/// order, a later video replacing an earlier one with the same id.
pub open spec fn fetched_details(replies: Seq<Seq<VideoSearchResult>>) -> Map<Seq<char>, VideoSearchResultView>
    decreases replies.len(),
{
    if replies.len() == 0 {
        Map::empty()
    } else {
        with_details(fetched_details(replies.drop_last()), replies.last())
    }
}

/// The decisions of fetching the details of some content ids: one request per chunk, in
/// order, each reply's videos added to the details.
pub struct DetailsFetch {
    rest: Vec<Vec<String>>,
    details: Vec<(String, VideoSearchResult)>,
    sent: usize,
    finished: bool,
    chunks: Ghost<Seq<Vec<String>>>,
    replies: Ghost<Seq<Seq<VideoSearchResult>>>,
}

/// What to do next: request the details of a chunk and hand in the reply's videos, or
/// take the details.
pub enum DetailsStep {
    Fetch(Vec<String>),
    Done(Vec<(String, VideoSearchResult)>),
}

impl DetailsFetch {
    /// The chunks of content ids, in the order in which they are requested.
    pub closed spec fn spec_chunks(&self) -> Seq<Vec<String>> {
        self.chunks@
    }

    /// How many chunks have been requested.
    pub closed spec fn spec_sent(&self) -> nat {
        self.sent as nat
    }

    /// Whether the details have been handed out.
    pub closed spec fn spec_finished(&self) -> bool {
        self.finished
    }

    /// The videos of the replies handed in so far, in order.
    pub closed spec fn spec_replies(&self) -> Seq<Seq<VideoSearchResult>> {
        self.replies@
    }

    /// The invariant: until the details are handed out, every chunk requested but the
    /// outstanding one has had its reply, and the details are those the replies give.
    pub closed spec fn wf(&self) -> bool {
        &&& self.sent <= self.chunks@.len() <= usize::MAX
        &&& self.rest@ == self.chunks@.skip(self.sent as int)
        &&& details_wf(self.details@)
        &&& !self.finished ==> details_map(self.details@) == fetched_details(self.replies@)
        &&& !self.finished ==> self.sent >= 1 && self.replies@.len() + 1 == self.sent
    }

    /// Starts fetching the details of `ids`: the first chunk's request, or, without ids,
    /// no details.
    pub fn start(ids: &[String]) -> (r: (DetailsFetch, DetailsStep))
        ensures
            r.0.wf(),
            joined_chunks(r.0.spec_chunks()) == ids@,
            forall|c: int|
                0 <= c < r.0.spec_chunks().len() ==> 0 < (#[trigger] r.0.spec_chunks()[c]).len()
                    <= GET_DETAILS_CHUNK_SIZE,
            r.0.spec_chunks().len() == (ids@.len() + GET_DETAILS_CHUNK_SIZE - 1) / GET_DETAILS_CHUNK_SIZE as int,
            r.0.spec_replies().len() == 0,
            ids@.len() == 0 <==> r.0.spec_finished(),
            ids@.len() == 0 ==> (r.1 matches DetailsStep::Done(v) && v@.len() == 0),
            ids@.len() > 0 ==> (r.1 matches DetailsStep::Fetch(c) && c@ == r.0.spec_chunks()[0]@
                && r.0.spec_sent() == 1),
    {
        let chunks = details_chunks(ids);
        let ghost all = chunks@;
        let mut rest = chunks;
        let details: Vec<(String, VideoSearchResult)> = Vec::new();
        assert(details_map(details@) =~= fetched_details(Seq::empty()));
        if rest.len() == 0 {
            assert(all.skip(0) =~= all);
            let fetch = DetailsFetch {
                rest,
                details,
                sent: 0,
                finished: true,
                chunks: Ghost(all),
                replies: Ghost(Seq::empty()),
            };
            return (fetch, DetailsStep::Done(Vec::new()));
        }
        let first = rest.remove(0);
        assert(rest@ =~= all.skip(1));
        let fetch = DetailsFetch {
            rest,
            details,
            sent: 1,
            finished: false,
            chunks: Ghost(all),
            replies: Ghost(Seq::empty()),
        };
        (fetch, DetailsStep::Fetch(first))
    }

    /// Takes the videos of the reply to the outstanding request: the next chunk's
    /// request, or, after the last chunk, the details of all replies.
    pub fn on_reply(&mut self, data: Vec<VideoSearchResult>) -> (r: DetailsStep)
        requires
            old(self).wf(),
            !old(self).spec_finished(),
        ensures
            final(self).wf(),
            final(self).spec_chunks() == old(self).spec_chunks(),
            final(self).spec_replies() == old(self).spec_replies().push(data@),
            old(self).spec_sent() < old(self).spec_chunks().len() ==> {
                &&& r matches DetailsStep::Fetch(c)
                &&& c@ == old(self).spec_chunks()[old(self).spec_sent() as int]@
                &&& final(self).spec_sent() == old(self).spec_sent() + 1
                &&& !final(self).spec_finished()
            },
            old(self).spec_sent() == old(self).spec_chunks().len() ==> {
                &&& r matches DetailsStep::Done(v)
                &&& details_wf(v@)
                &&& details_map(v@) == fetched_details(final(self).spec_replies())
                &&& final(self).spec_replies().len() == final(self).spec_chunks().len()
                &&& final(self).spec_finished()
            },
    {
        let ghost before = self.replies@;
        extend_details(&mut self.details, data);
        self.replies = Ghost(self.replies@.push(data@));
        proof {
            assert(self.replies@.drop_last() =~= before);
        }
        if self.rest.len() > 0 {
            let ghost rest_before = self.rest@;
            let next = self.rest.remove(0);
            proof {
                assert(rest_before[0] == self.chunks@[self.sent as int]);
                assert(self.rest@ =~= self.chunks@.skip(self.sent + 1));
            }
            self.sent = self.sent + 1;
            DetailsStep::Fetch(next)
        } else {
            assert(self.sent == self.chunks@.len());
            self.finished = true;
            let mut done: Vec<(String, VideoSearchResult)> = Vec::new();
            std::mem::swap(&mut done, &mut self.details);
            assert(details_map(self.details@) =~= Map::empty());
            DetailsStep::Done(done)
        }
    }
}

/// After inserting videos, an id that one of them carries maps to the last video with
/// that id, and any other id keeps what it had.
pub proof fn lemma_with_details_lookup(
    m: Map<Seq<char>, VideoSearchResultView>,
    items: Seq<VideoSearchResult>,
    k: Seq<char>,
)
    ensures
        (forall|i: int| 0 <= i < items.len() ==> (#[trigger] items[i]).content_id@ != k) ==> (
        with_details(m, items).contains_key(k) == m.contains_key(k) && (m.contains_key(k)
            ==> with_details(m, items)[k] == m[k])),
        forall|i: int|
            0 <= i < items.len() && (#[trigger] items[i]).content_id@ == k && (forall|j: int|
                i < j < items.len() ==> items[j].content_id@ != k) ==> with_details(m, items).contains_key(k)
                && with_details(m, items)[k] == items[i]@,
    decreases items.len(),
{
    if items.len() > 0 {
        let rest = items.drop_last();
        lemma_with_details_lookup(m, rest, k);
        assert forall|i: int|
            0 <= i < items.len() && (#[trigger] items[i]).content_id@ == k && (forall|j: int|
                i < j < items.len() ==> items[j].content_id@ != k) implies with_details(m, items).contains_key(k)
                && with_details(m, items)[k] == items[i]@ by {
            if i < items.len() - 1 {
                assert(items[items.len() - 1].content_id@ != k);
                assert(rest[i] == items[i]);
                assert forall|j: int| i < j < rest.len() implies rest[j].content_id@ != k by {
                    assert(rest[j] == items[j]);
                }
            }
        }
        if forall|i: int| 0 <= i < items.len() ==> (#[trigger] items[i]).content_id@ != k {
            assert forall|i: int| 0 <= i < rest.len() implies (#[trigger] rest[i]).content_id@ != k by {
                assert(rest[i] == items[i]);
            }
            assert(items[items.len() - 1].content_id@ != k);
        }
    }
}

} // verus!
