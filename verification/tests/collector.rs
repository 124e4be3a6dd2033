use std::collections::HashSet;

use nicorandompicker::logic::{
    draw_order, draw_search, reorder, CollectStep, PageDraws, SearchDraw, SearchPage, SearchRequest, SortDirection,
    VideoCollector, MAX_SEARCH_REQUESTS,
};
use nicorandompicker::snapshot::response::VideoSearchResult;
use rand::rngs::StdRng;
use rand::SeedableRng;

fn video(n: u64) -> VideoSearchResult {
    VideoSearchResult {
        content_id: format!("sm{n}"),
        title: format!("video {n}"),
        view_counter: n * 7 % 101,
        comment_counter: n * 3 % 53,
        mylist_counter: n * 11 % 89,
        like_counter: n,
        length_seconds: n * 13 % 97,
        thumbnail_url: String::new(),
        tags: Vec::new(),
    }
}

/// A search service over a fixed list, sorted by the chosen field.
fn search(videos: &[VideoSearchResult], sort_index: usize, direction: SortDirection, limit: usize, offset: usize) -> SearchPage<VideoSearchResult> {
    let mut sorted: Vec<VideoSearchResult> = videos.to_vec();
    sorted.sort_by_key(|v| match sort_index {
        0 => v.view_counter,
        1 => v.mylist_counter,
        2 => v.length_seconds,
        3 => v.comment_counter,
        _ => v.like_counter,
    });
    if direction == SortDirection::Desc {
        sorted.reverse();
    }
    let result = sorted.iter().skip(offset).take(limit).cloned().collect();
    SearchPage { total_count: videos.len(), result }
}

/// Runs a collection to its end; the videos and the number of searches.
fn collect(videos: &[VideoSearchResult], count: usize, seed: u64) -> (Vec<VideoSearchResult>, usize) {
    let mut rng = StdRng::seed_from_u64(seed);
    let threshold = ((count as f64) * 1.2) as usize;
    let draw = VideoCollector::<VideoSearchResult>::draw_for_start(count, 5, &mut rng);
    let (mut collector, mut step) = VideoCollector::start(count, threshold, 5, draw);
    let mut searches = 0;
    loop {
        match step {
            CollectStep::Done(result) => return (result, searches),
            CollectStep::Search(request) => {
                assert!(request.sort_index < 5);
                searches += 1;
                let page = search(videos, request.sort_index, request.direction, request.limit, request.offset);
                let draws = collector.draw_for_page(&page, &mut rng);
                step = collector.on_page(page, draws);
            }
        }
    }
}

#[test]
fn collecting_nothing_searches_nothing() {
    let videos: Vec<VideoSearchResult> = (0..10).map(video).collect();
    let (result, searches) = collect(&videos, 0, 1);
    assert!(result.is_empty());
    assert_eq!(searches, 0);
}

#[test]
fn collection_returns_distinct_videos_within_the_search_budget() {
    for seed in 0..20 {
        for (available, count) in [(0u64, 5usize), (3, 5), (5, 5), (50, 10), (200, 100), (150, 30)] {
            let videos: Vec<VideoSearchResult> = (0..available).map(video).collect();
            let (result, searches) = collect(&videos, count, seed);
            let ids: HashSet<&str> = result.iter().map(|v| v.content_id.as_str()).collect();
            assert_eq!(ids.len(), result.len());
            assert!(result.len() <= count);
            assert!(searches <= MAX_SEARCH_REQUESTS);
            assert_eq!(result.len(), count.min(available as usize), "seed {seed} available {available} count {count}");
        }
    }
}

#[test]
fn draws_stand_for_directions() {
    assert_eq!(SortDirection::from_draw(0), SortDirection::Asc);
    assert_eq!(SortDirection::from_draw(1), SortDirection::Desc);
}

#[test]
fn random_draws_take_every_value_in_their_ranges() {
    let mut rng = StdRng::seed_from_u64(7);
    let draws: Vec<SearchDraw> = (0..200).map(|_| draw_search(&mut rng, 5, 3)).collect();
    for value in 0..5 {
        assert!(draws.iter().any(|d| d.sort_index == value));
    }
    for value in 0..2 {
        assert!(draws.iter().any(|d| d.direction == value));
    }
    for value in 0..4 {
        assert!(draws.iter().any(|d| d.offset == value));
    }
    assert!(draws.iter().all(|d| d.sort_index < 5 && d.direction <= 1 && d.offset <= 3));
}

#[test]
fn drawn_orders_list_each_index_once() {
    let mut rng = StdRng::seed_from_u64(3);
    for n in [0usize, 1, 2, 10, 100] {
        let mut order = draw_order(&mut rng, n);
        order.sort();
        assert_eq!(order, (0..n).collect::<Vec<_>>());
    }
}

#[test]
fn reorder_puts_each_item_where_the_order_says() {
    let items = vec!["a", "b", "c", "d"];
    assert_eq!(reorder(items, &vec![2, 0, 3, 1]), vec!["c", "a", "d", "b"]);
}

#[test]
fn steps_follow_their_draws() {
    let draw = SearchDraw { sort_index: 3, direction: 1, offset: 17 };
    let (mut collector, step) = VideoCollector::<VideoSearchResult>::start(10, 12, 5, draw);
    match step {
        CollectStep::Search(request) => assert_eq!(
            request,
            SearchRequest { sort_index: 3, direction: SortDirection::Desc, limit: 3, offset: 17 }
        ),
        CollectStep::Done(_) => panic!("a search was expected"),
    }
    // Five matches in all: fewer than the threshold, so the next search fetches them all.
    let page = SearchPage { total_count: 5, result: (0..4).map(video).collect() };
    let draws = PageDraws {
        search: SearchDraw { sort_index: 1, direction: 0, offset: 0 },
        order: Vec::new(),
        final_order: Vec::new(),
    };
    match collector.on_page(page, draws) {
        CollectStep::Search(request) => assert_eq!(
            request,
            SearchRequest { sort_index: 1, direction: SortDirection::Asc, limit: 5, offset: 0 }
        ),
        CollectStep::Done(_) => panic!("a search was expected"),
    }
    let page = SearchPage { total_count: 5, result: (0..5).map(video).collect() };
    let draws = PageDraws {
        search: SearchDraw { sort_index: 0, direction: 0, offset: 0 },
        order: vec![4, 3, 2, 1, 0],
        final_order: Vec::new(),
    };
    match collector.on_page(page, draws) {
        CollectStep::Done(result) => {
            let ids: Vec<&str> = result.iter().map(|v| v.content_id.as_str()).collect();
            assert_eq!(ids, vec!["sm4", "sm3", "sm2", "sm1", "sm0"]);
        }
        CollectStep::Search(_) => panic!("the result was expected"),
    }
}
