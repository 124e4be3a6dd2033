use nicorandompicker::api::search_video::{
    search_criteria_from, trim_in_place, InvalidSearchParamError, SearchParams,
};
use nicorandompicker::datetime::DateTime;
use nicorandompicker::snapshot::SearchCriteria;
use time::format_description::well_known::Rfc3339;
use time::OffsetDateTime;

fn datetime(text: &str) -> DateTime {
    let t = OffsetDateTime::parse(text, &Rfc3339).unwrap();
    DateTime {
        unix_seconds: t.unix_timestamp(),
        nanosecond: t.nanosecond(),
        offset_seconds: t.offset().whole_seconds(),
    }
}

fn params(tag_name: &str, video_count: usize) -> SearchParams {
    SearchParams {
        tag_name: tag_name.to_string(),
        video_count,
        view_count_min: None,
        view_count_max: None,
        start_time_from: None,
        start_time_to: None,
    }
}

#[test]
fn search_params_convert_to_search_criteria() {
    let params = SearchParams {
        tag_name: "  VOCALOID  ".to_string(),
        video_count: 25,
        view_count_min: Some(100),
        view_count_max: Some(200),
        start_time_from: Some(datetime("2025-01-01T18:30:00+09:00")),
        start_time_to: Some(datetime("2025-01-02T18:30:00+09:00")),
    };

    let criteria = search_criteria_from(params).unwrap();

    assert_eq!(
        criteria,
        SearchCriteria {
            tag_name: "VOCALOID".to_string(),
            view_count_min: Some(100),
            view_count_max: Some(200),
            start_time_from: Some(datetime("2025-01-01T18:30:00+09:00")),
            start_time_to: Some(datetime("2025-01-02T18:30:00+09:00")),
        }
    );
}

#[test]
fn search_params_rejects_reversed_view_count_range() {
    let params = SearchParams {
        tag_name: "VOCALOID".to_string(),
        video_count: 25,
        view_count_min: Some(200),
        view_count_max: Some(100),
        start_time_from: None,
        start_time_to: None,
    };

    assert!(matches!(search_criteria_from(params), Err(InvalidSearchParamError::ViewCountRange)));
}

#[test]
fn search_params_rejects_reversed_start_time_range() {
    let params = SearchParams {
        tag_name: "VOCALOID".to_string(),
        video_count: 25,
        view_count_min: None,
        view_count_max: None,
        start_time_from: Some(datetime("2025-01-02T18:30:00+09:00")),
        start_time_to: Some(datetime("2025-01-01T18:30:00+09:00")),
    };

    assert!(matches!(search_criteria_from(params), Err(InvalidSearchParamError::StartTimeRange)));
}

#[test]
fn search_params_allows_one_sided_ranges() {
    let params = SearchParams {
        tag_name: "VOCALOID".to_string(),
        video_count: 25,
        view_count_min: Some(100),
        view_count_max: None,
        start_time_from: None,
        start_time_to: Some(datetime("2025-01-01T18:30:00+09:00")),
    };

    assert!(search_criteria_from(params).is_ok());
}

#[test]
fn search_params_reject_blank_and_long_tag_names() {
    assert_eq!(search_criteria_from(params(" \u{3000}\t", 25)), Err(InvalidSearchParamError::TagName));
    assert_eq!(search_criteria_from(params("", 25)), Err(InvalidSearchParamError::TagName));
    assert!(search_criteria_from(params(&"a".repeat(1000), 25)).is_ok());
    assert_eq!(search_criteria_from(params(&"a".repeat(1001), 25)), Err(InvalidSearchParamError::TagName));
    // 334 characters of three UTF-8 bytes each are 1002 bytes.
    assert_eq!(search_criteria_from(params(&"あ".repeat(334), 25)), Err(InvalidSearchParamError::TagName));
    assert!(search_criteria_from(params(&"あ".repeat(333), 25)).is_ok());
}

#[test]
fn search_params_reject_video_counts_outside_range() {
    assert_eq!(search_criteria_from(params("tag", 0)), Err(InvalidSearchParamError::VideoCount));
    assert_eq!(search_criteria_from(params("tag", 101)), Err(InvalidSearchParamError::VideoCount));
    assert!(search_criteria_from(params("tag", 1)).is_ok());
    assert!(search_criteria_from(params("tag", 100)).is_ok());
}

#[test]
fn search_params_check_tag_name_first() {
    let mut p = params("  ", 0);
    p.view_count_min = Some(2);
    p.view_count_max = Some(1);
    assert_eq!(search_criteria_from(p), Err(InvalidSearchParamError::TagName));
}

#[test]
fn search_params_allow_equal_range_ends() {
    let mut p = params("tag", 10);
    p.view_count_min = Some(5);
    p.view_count_max = Some(5);
    p.start_time_from = Some(datetime("2025-01-01T18:30:00+09:00"));
    p.start_time_to = Some(datetime("2025-01-01T09:30:00Z"));
    assert!(search_criteria_from(p).is_ok());
}

#[test]
fn trim_in_place_removes_unicode_whitespace() {
    let mut s = "\u{3000} タグ 名\n\t".to_string();
    trim_in_place(&mut s);
    assert_eq!(s, "タグ 名");
    let mut empty = "   ".to_string();
    trim_in_place(&mut empty);
    assert_eq!(empty, "");
}

#[test]
fn invalid_search_params_answer_bad_request() {
    let parts = InvalidSearchParamError::VideoCount.error_response();
    assert_eq!(parts.status, 400);
    assert_eq!(parts.message, "検索件数は1件以上100件以下で指定してください");
    assert_eq!(InvalidSearchParamError::TagName.message(), "タグ名を入力してください");
}
