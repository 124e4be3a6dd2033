use std::borrow::Cow;

use nicorandompicker::datetime::DateTime;
use nicorandompicker::logic::SortDirection;
use nicorandompicker::snapshot::request::{
    build_get_details_request, build_search_request, sort_value, Bound, FilterEqual, FilterRange,
    JsonFilter, JsonFilterError, RefOrBox, SnapshotRequest, SnapshotRequestError, SortField,
    SEARCH_FIELDS, SNAPSHOT_URL,
};
use nicorandompicker::snapshot::response::{
    split_tags, ErrorMeta, ErrorResponse, OkMeta, OkResponse, SnapshotResponse, VideoSearchResult,
};
use nicorandompicker::snapshot::{
    contents_for, details_chunks, extend_details, find_detail, ok_response, search_page,
    snapshot_details_to_map, sort_specs, DetailsFetch, DetailsStep, SearchCriteria, SearchError,
};
use time::format_description::well_known::Rfc3339;
use time::OffsetDateTime;

const TEST_APP_NAME: &str = "test-nico-random-picker";

fn datetime(text: &str) -> DateTime {
    let t = OffsetDateTime::parse(text, &Rfc3339).unwrap();
    DateTime {
        unix_seconds: t.unix_timestamp(),
        nanosecond: t.nanosecond(),
        offset_seconds: t.offset().whole_seconds(),
    }
}

fn param<'a>(params: &'a [(String, String)], key: &str) -> Option<&'a str> {
    params.iter().find_map(|(name, value)| if name == key { Some(value.as_str()) } else { None })
}

/// The HTTP request that a snapshot request stands for.
fn to_http(request: SnapshotRequest) -> http::Request<()> {
    http::Request::builder()
        .method(http::Method::GET)
        .uri(request.uri)
        .header(http::header::USER_AGENT, request.user_agent)
        .body(())
        .unwrap()
}

fn json(text: &str) -> serde_json::Value {
    serde_json::from_str(text).unwrap()
}

#[test]
fn search_error_classifies_public_and_hidden_messages() {
    let client_error: SearchError<String> = SearchError::from(ErrorResponse {
        meta: ErrorMeta {
            status: 400,
            error_code: "QUERY_PARSE_ERROR".to_string(),
            error_message: "query parse error".to_string(),
        },
    });
    assert_eq!(client_error.status_code(), 400);
    assert_eq!(
        client_error.public_message(),
        "検索サーバに検索条件が拒否されました: QUERY_PARSE_ERROR: query parse error"
    );
    assert!(!client_error.is_internal_hidden());

    let upstream_error: SearchError<String> = SearchError::from(ErrorResponse {
        meta: ErrorMeta {
            status: 503,
            error_code: "MAINTENANCE".to_string(),
            error_message: "please retry later.".to_string(),
        },
    });
    assert_eq!(upstream_error.status_code(), 503);
    assert_eq!(upstream_error.public_message(), "検索サーバを利用できません: MAINTENANCE: please retry later.");
    assert!(!upstream_error.is_internal_hidden());

    let hidden_error = SearchError::from_http_client("connection reset".to_string());
    assert_eq!(hidden_error.status_code(), 500);
    assert_eq!(hidden_error.public_message(), "検索中にエラーが発生しました");
    assert!(hidden_error.is_internal_hidden());
}

#[test]
fn search_errors_with_unknown_status_are_hidden() {
    let error: SearchError<String> = SearchError::from(ErrorResponse {
        meta: ErrorMeta { status: 42, error_code: "X".to_string(), error_message: "y".to_string() },
    });
    assert!(matches!(error, SearchError::SnapshotApi { status: 500, .. }));
    assert_eq!(error.status_code(), 500);
    assert!(error.is_internal_hidden());
    let error: SearchError<String> = SearchError::from(ErrorResponse {
        meta: ErrorMeta { status: 500, error_code: "E".to_string(), error_message: "m".to_string() },
    });
    assert_eq!(error.public_message(), "検索中にエラーが発生しました");
}

#[test]
fn build_search_request_encodes_snapshot_query_with_json_filter() {
    let criteria = SearchCriteria {
        tag_name: "foo bar".to_string(),
        view_count_min: Some(100),
        view_count_max: Some(200),
        start_time_from: Some(datetime("2024-01-02T03:04:00+09:00")),
        start_time_to: Some(datetime("2024-01-03T03:04:00+09:00")),
    };

    let request =
        to_http(build_search_request(TEST_APP_NAME, &criteria, &SortField::ViewCounter, SortDirection::Asc, 3, 42).unwrap());
    let uri = request.uri();
    let params = serde_urlencoded::from_str::<Vec<(String, String)>>(uri.query().unwrap()).unwrap();
    let json_filter = json(param(&params, "jsonFilter").unwrap());

    assert_eq!(uri.path(), "/api/v2/snapshot/video/contents/search");
    assert_eq!(param(&params, "q").unwrap(), "foo bar");
    assert_eq!(param(&params, "targets").unwrap(), "tagsExact");
    assert_eq!(param(&params, "fields").unwrap(), SEARCH_FIELDS);
    assert_eq!(param(&params, "_sort").unwrap(), "+viewCounter");
    assert_eq!(param(&params, "_limit").unwrap(), "3");
    assert_eq!(param(&params, "_offset").unwrap(), "42");
    assert_eq!(param(&params, "_context").unwrap(), TEST_APP_NAME);
    assert_eq!(request.headers().get(http::header::USER_AGENT).unwrap(), TEST_APP_NAME);
    assert_eq!(
        json_filter,
        json(
            r#"{
                "type": "and",
                "filters": [
                    {"type": "range", "field": "viewCounter", "from": 100, "include_lower": true,
                     "to": 200, "include_upper": true},
                    {"type": "range", "field": "startTime", "from": "2024-01-02T03:04:00+09:00",
                     "include_lower": true, "to": "2024-01-03T03:04:00+09:00", "include_upper": true}
                ]
            }"#
        )
    );
}

#[test]
fn build_search_request_allows_one_sided_ranges() {
    let criteria = SearchCriteria {
        tag_name: "foo bar".to_string(),
        view_count_min: Some(100),
        view_count_max: None,
        start_time_from: None,
        start_time_to: None,
    };

    let request =
        to_http(build_search_request(TEST_APP_NAME, &criteria, &SortField::ViewCounter, SortDirection::Asc, 3, 42).unwrap());
    let params = serde_urlencoded::from_str::<Vec<(String, String)>>(request.uri().query().unwrap()).unwrap();
    let json_filter = json(param(&params, "jsonFilter").unwrap());

    assert_eq!(
        json_filter,
        json(
            r#"{"type": "and", "filters": [
                {"type": "range", "field": "viewCounter", "from": 100, "include_lower": true}
            ]}"#
        )
    );
}

#[test]
fn build_search_request_without_ranges_has_no_filter() {
    let criteria = SearchCriteria {
        tag_name: "VOCALOID".to_string(),
        view_count_min: None,
        view_count_max: None,
        start_time_from: None,
        start_time_to: None,
    };
    let request =
        to_http(build_search_request(TEST_APP_NAME, &criteria, &SortField::LastCommentTime, SortDirection::Desc, 100, 0).unwrap());
    let params = serde_urlencoded::from_str::<Vec<(String, String)>>(request.uri().query().unwrap()).unwrap();
    assert!(param(&params, "jsonFilter").is_none());
    assert_eq!(param(&params, "_sort").unwrap(), "-lastCommentTime");
    let keys: Vec<&str> = params.iter().map(|(k, _)| k.as_str()).collect();
    assert_eq!(keys, vec!["q", "targets", "fields", "_sort", "_limit", "_offset", "_context"]);
}

#[test]
fn build_search_request_refuses_unformattable_times() {
    let criteria = SearchCriteria {
        tag_name: "tag".to_string(),
        view_count_min: None,
        view_count_max: None,
        // A year below zero has no RFC 3339 form.
        start_time_from: Some(DateTime { unix_seconds: -377_705_116_800, nanosecond: 0, offset_seconds: 0 }),
        start_time_to: None,
    };
    let result = build_search_request(TEST_APP_NAME, &criteria, &SortField::StartTime, SortDirection::Asc, 1, 0);
    assert!(matches!(
        result,
        Err(SnapshotRequestError::JsonFilterSerialization(JsonFilterError::InvalidDateTime))
    ));
}

#[test]
fn build_get_details_request_encodes_content_id_filter() {
    let ids = vec!["sm9".to_string(), "so123".to_string()];
    let request = to_http(build_get_details_request(TEST_APP_NAME, &ids).unwrap());
    let uri = request.uri();
    let params = serde_urlencoded::from_str::<Vec<(String, String)>>(uri.query().unwrap()).unwrap();
    let json_filter = json(param(&params, "jsonFilter").unwrap());

    assert_eq!(uri.path(), "/api/v2/snapshot/video/contents/search");
    assert_eq!(param(&params, "q").unwrap(), "");
    assert!(param(&params, "targets").is_none());
    assert_eq!(param(&params, "fields").unwrap(), SEARCH_FIELDS);
    assert_eq!(param(&params, "_sort").unwrap(), "startTime");
    assert_eq!(param(&params, "_limit").unwrap(), "2");
    assert_eq!(param(&params, "_offset").unwrap(), "0");
    assert_eq!(param(&params, "_context").unwrap(), TEST_APP_NAME);
    assert_eq!(request.headers().get(http::header::USER_AGENT).unwrap(), TEST_APP_NAME);
    assert_eq!(
        json_filter,
        json(
            r#"{"type": "or", "filters": [
                {"type": "equal", "field": "contentId", "value": "sm9"},
                {"type": "equal", "field": "contentId", "value": "so123"}
            ]}"#
        )
    );
}

#[test]
fn build_get_details_request_with_one_or_many_ids() {
    let request = to_http(build_get_details_request(TEST_APP_NAME, &["sm9".to_string()]).unwrap());
    let params = serde_urlencoded::from_str::<Vec<(String, String)>>(request.uri().query().unwrap()).unwrap();
    assert_eq!(
        json(param(&params, "jsonFilter").unwrap()),
        json(r#"{"type": "equal", "field": "contentId", "value": "sm9"}"#)
    );
    assert_eq!(param(&params, "_limit").unwrap(), "1");

    let request = to_http(build_get_details_request(TEST_APP_NAME, &[]).unwrap());
    let params = serde_urlencoded::from_str::<Vec<(String, String)>>(request.uri().query().unwrap()).unwrap();
    assert!(param(&params, "jsonFilter").is_none());
    assert_eq!(param(&params, "_limit").unwrap(), "0");

    let ids: Vec<String> = (0..150).map(|i| format!("sm{i}")).collect();
    let request = to_http(build_get_details_request(TEST_APP_NAME, &ids).unwrap());
    let params = serde_urlencoded::from_str::<Vec<(String, String)>>(request.uri().query().unwrap()).unwrap();
    assert_eq!(param(&params, "_limit").unwrap(), "100");
    let filter = json(param(&params, "jsonFilter").unwrap());
    assert_eq!(filter["filters"].as_array().unwrap().len(), 100);
}

#[test]
fn build_request_keeps_uri_and_user_agent() {
    let request = build_get_details_request("my app&x", &["sm9".to_string()]).unwrap();
    assert_eq!(request.user_agent, "my app&x");
    let query = request.uri.strip_prefix(&format!("{SNAPSHOT_URL}?")).unwrap();
    let pairs = serde_urlencoded::from_str::<Vec<(String, String)>>(query).unwrap();
    let expected: Vec<(String, String)> = [
        ("q", ""),
        ("fields", SEARCH_FIELDS),
        ("jsonFilter", r#"{"type":"equal","field":"contentId","value":"sm9"}"#),
        ("_sort", "startTime"),
        ("_limit", "1"),
        ("_offset", "0"),
        ("_context", "my app&x"),
    ]
    .iter()
    .map(|(k, v)| (k.to_string(), v.to_string()))
    .collect();
    assert_eq!(pairs, expected);
    assert!(query.contains("_context=my+app%26x"));
}

#[test]
fn build_request_refuses_app_name_that_is_no_header_value() {
    assert!(matches!(
        build_get_details_request("bad\nname", &["sm9".to_string()]),
        Err(SnapshotRequestError::RequestBuild(_))
    ));
    assert!(matches!(
        build_search_request(
            "bad\u{7f}name",
            &SearchCriteria {
                tag_name: "foo".to_string(),
                view_count_min: None,
                view_count_max: None,
                start_time_from: None,
                start_time_to: None,
            },
            &SortField::ViewCounter,
            SortDirection::Asc,
            1,
            0
        ),
        Err(SnapshotRequestError::RequestBuild(_))
    ));
}

#[test]
fn filter_range_serializes_snapshot_json_filter() {
    let filter = JsonFilter::Range(FilterRange::ViewCounter((Bound::Included(100), Bound::Excluded(200))));

    assert_eq!(
        json(&filter.to_json().unwrap()),
        json(
            r#"{"type": "range", "field": "viewCounter", "from": 100, "include_lower": true,
                "to": 200, "include_upper": false}"#
        )
    );
}

#[test]
fn filter_range_without_ends_is_refused() {
    let filter = JsonFilter::Range(FilterRange::ViewCounter((Bound::Unbounded, Bound::Unbounded)));
    assert_eq!(filter.to_json(), Err(JsonFilterError::EmptyRange));
    let filter = FilterRange::GenreKeyword((Bound::Unbounded, Bound::Excluded(Cow::Borrowed("a\"b"))));
    assert_eq!(filter.to_json().unwrap(), r#"{"type":"range","field":"genre.keyword","to":"a\"b","include_upper":false}"#);
}

#[test]
fn json_filter_equal_serializes_snapshot_json_filter() {
    let filter = JsonFilter::Equal(FilterEqual::TagsExact(Cow::Borrowed("VOCALOID")));

    assert_eq!(
        json(&filter.to_json().unwrap()),
        json(r#"{"type": "equal", "field": "tagsExact", "value": "VOCALOID"}"#)
    );
    assert_eq!(filter.to_json().unwrap(), r#"{"type":"equal","field":"tagsExact","value":"VOCALOID"}"#);
}

#[test]
fn json_filter_and_serializes_nested_filters() {
    let filters = vec![
        JsonFilter::Equal(FilterEqual::TagsExact(Cow::Borrowed("VOCALOID"))),
        JsonFilter::Range(FilterRange::ViewCounter((Bound::Included(100), Bound::Included(200)))),
    ];
    let filter = JsonFilter::And { filters: RefOrBox::Ref(&filters) };

    assert_eq!(
        json(&filter.to_json().unwrap()),
        json(
            r#"{"type": "and", "filters": [
                {"type": "equal", "field": "tagsExact", "value": "VOCALOID"},
                {"type": "range", "field": "viewCounter", "from": 100, "include_lower": true,
                 "to": 200, "include_upper": true}
            ]}"#
        )
    );
}

#[test]
fn json_filter_or_serializes_owned_nested_filters() {
    let filters = Box::new(vec![
        JsonFilter::Equal(FilterEqual::GenreKeyword(Cow::Borrowed("音楽・サウンド"))),
        JsonFilter::Equal(FilterEqual::GenreKeyword(Cow::Borrowed("エンターテイメント"))),
    ]);
    let filter = JsonFilter::Or { filters: RefOrBox::Owned(filters) };

    assert_eq!(
        json(&filter.to_json().unwrap()),
        json(
            r#"{"type": "or", "filters": [
                {"type": "equal", "field": "genreKeyword", "value": "音楽・サウンド"},
                {"type": "equal", "field": "genreKeyword", "value": "エンターテイメント"}
            ]}"#
        )
    );
}

#[test]
fn json_filter_not_serializes_single_nested_filter() {
    let inner = JsonFilter::Equal(FilterEqual::ContentId(Cow::Borrowed("sm9")));
    let filter = JsonFilter::Not { filter: RefOrBox::Ref(&inner) };

    assert_eq!(
        json(&filter.to_json().unwrap()),
        json(r#"{"type": "not", "filter": {"type": "equal", "field": "contentId", "value": "sm9"}}"#)
    );
}

#[test]
fn json_filter_nested_errors_come_out() {
    let filters = vec![
        JsonFilter::Equal(FilterEqual::ViewCounter(5)),
        JsonFilter::Range(FilterRange::Tags((Bound::Unbounded, Bound::Unbounded))),
    ];
    let filter = JsonFilter::Or { filters: RefOrBox::Ref(&filters) };
    assert_eq!(filter.to_json(), Err(JsonFilterError::EmptyRange));
    let filter = JsonFilter::Equal(FilterEqual::StartTime(datetime("2024-01-02T03:04:05.5+09:00")));
    assert_eq!(
        filter.to_json().unwrap(),
        r#"{"type":"equal","field":"startTime","value":"2024-01-02T03:04:05.5+09:00"}"#
    );
}

#[test]
fn sort_values_name_direction_and_field() {
    assert_eq!(sort_value(&SortField::ViewCounter, SortDirection::Asc), "+viewCounter");
    assert_eq!(sort_value(&SortField::MylistCounter, SortDirection::Desc), "-mylistCounter");
    assert_eq!(sort_specs().len(), 6);
    assert_eq!(sort_specs()[5], SortField::LastCommentTime);
}

fn video(id: &str, title: &str) -> VideoSearchResult {
    VideoSearchResult {
        content_id: id.to_string(),
        title: title.to_string(),
        view_counter: 1,
        comment_counter: 10,
        mylist_counter: 100,
        like_counter: 1000,
        length_seconds: 1000,
        thumbnail_url: format!("https://thumbnail.example.com/{id}"),
        tags: split_tags("a b c"),
    }
}

fn ok(data: Vec<VideoSearchResult>) -> OkResponse {
    OkResponse {
        meta: OkMeta { status: 200, total_count: data.len(), id: "594513df-85ea-4122-9859-f4ec2701cacf".to_string() },
        data,
    }
}

#[test]
fn split_tags_splits_at_unicode_whitespace() {
    assert_eq!(split_tags("a b c"), vec!["a", "b", "c"]);
    assert_eq!(split_tags("  VOCALOID\u{3000}初音ミク\t\n"), vec!["VOCALOID", "初音ミク"]);
    assert!(split_tags(" \u{3000} ").is_empty());
}

#[test]
fn details_map_keeps_the_last_video_of_an_id() {
    let map = snapshot_details_to_map(ok(vec![video("sm9", "first"), video("so1", "other"), video("sm9", "second")]));
    assert_eq!(map.len(), 2);
    assert_eq!(find_detail(&map, "sm9").unwrap().title, "second");
    assert_eq!(find_detail(&map, "so1").unwrap().title, "other");
    assert!(find_detail(&map, "sm1").is_none());

    let mut map = map;
    extend_details(&mut map, vec![video("so1", "newer"), video("nm3", "new")]);
    assert_eq!(map.len(), 3);
    assert_eq!(find_detail(&map, "so1").unwrap().title, "newer");

    let ids = vec!["nm3".to_string(), "missing".to_string(), "sm9".to_string(), "nm3".to_string()];
    let contents = contents_for(&ids, &map);
    let titles: Vec<&str> = contents.iter().map(|v| v.title.as_str()).collect();
    assert_eq!(titles, vec!["new", "second", "new"]);
}

#[test]
fn details_chunks_hold_twenty_five_ids() {
    let ids: Vec<String> = (0..51).map(|i| format!("sm{i}")).collect();
    let chunks = details_chunks(&ids);
    assert_eq!(chunks.len(), 3);
    assert_eq!(chunks[0].len(), 25);
    assert_eq!(chunks[2], vec!["sm50".to_string()]);
    assert_eq!(chunks.concat(), ids);
    assert!(details_chunks(&[]).is_empty());
}

#[test]
fn ok_response_passes_pages_and_turns_errors() {
    let page = search_page(ok_response::<String>(SnapshotResponse::Success(ok(vec![video("sm9", "t")]))).unwrap());
    assert_eq!(page.total_count, 1);
    assert_eq!(page.result[0].content_id, "sm9");
    let error = ok_response::<String>(SnapshotResponse::Error(ErrorResponse {
        meta: ErrorMeta { status: 400, error_code: "QUERY_PARSE_ERROR".to_string(), error_message: "m".to_string() },
    }));
    assert!(matches!(error, Err(SearchError::SnapshotApi { status: 400, .. })));
}

#[test]
fn duplicate_copies_every_field() {
    let v = video("sm9", "テスト");
    assert_eq!(v.duplicate(), v);
}

#[test]
fn json_strings_escape_control_characters() {
    let filter = FilterEqual::Tags(Cow::Borrowed("a\u{1}\n\\\u{7f}"));
    assert_eq!(
        filter.to_json().unwrap(),
        "{\"type\":\"equal\",\"field\":\"tags\",\"value\":\"a\\u0001\\n\\\\\u{7f}\"}"
    );
}

fn detail(id: &str, title: &str) -> VideoSearchResult {
    VideoSearchResult {
        content_id: id.to_string(),
        title: title.to_string(),
        view_counter: 0,
        comment_counter: 0,
        mylist_counter: 0,
        like_counter: 0,
        length_seconds: 0,
        thumbnail_url: String::new(),
        tags: Vec::new(),
    }
}

#[test]
fn details_fetch_without_ids_requests_nothing() {
    let (_, step) = DetailsFetch::start(&[]);
    assert!(matches!(step, DetailsStep::Done(details) if details.is_empty()));
}

#[test]
fn details_fetch_requests_each_chunk_in_order_and_keeps_the_later_video() {
    let ids: Vec<String> = (0..60).map(|i| format!("sm{i}")).collect();
    let (mut fetch, mut step) = DetailsFetch::start(&ids);
    let mut requested: Vec<Vec<String>> = Vec::new();
    let replies = [
        vec![detail("sm1", "first")],
        vec![detail("sm1", "second"), detail("sm30", "x")],
        vec![detail("sm55", "y")],
    ];
    let mut next = 0;
    let details = loop {
        match step {
            DetailsStep::Done(details) => break details,
            DetailsStep::Fetch(chunk) => {
                requested.push(chunk);
                step = fetch.on_reply(replies[next].clone());
                next += 1;
            }
        }
    };
    assert_eq!(requested.len(), 3);
    assert_eq!(requested[0], ids[0..25].to_vec());
    assert_eq!(requested[1], ids[25..50].to_vec());
    assert_eq!(requested[2], ids[50..60].to_vec());
    assert_eq!(details.len(), 3);
    assert_eq!(find_detail(&details, "sm1").unwrap().title, "second");
    assert_eq!(find_detail(&details, "sm30").unwrap().title, "x");
    assert_eq!(find_detail(&details, "sm55").unwrap().title, "y");
}
