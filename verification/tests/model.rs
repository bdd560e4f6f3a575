use oxi_phil::error::{FetchError, NavError};
use oxi_phil::model::{Model, Outcome, TabState, ThreadsModel, Wait};
use oxi_phil::overview::ThreadOverview;
use oxi_phil::thread::{Choice, ThreadComment, ThreadData};

fn overview(title: &str) -> ThreadOverview {
    ThreadOverview {
        title: title.to_string(),
        url: format!("https://thephilosophyforum.com/discussion/{}", title),
        author: "author".to_string(),
        replies: "1".to_string(),
    }
}

fn comment(body: &str) -> ThreadComment {
    ThreadComment {
        author: "a".to_string(),
        text: vec![Choice::Text(body.to_string())],
        date: "d".to_string(),
    }
}

fn thread(title: &str, comments: usize, page: u16) -> ThreadData {
    ThreadData {
        title: title.to_string(),
        comments: (0..comments).map(|i| comment(&format!("c{}", i))).collect(),
        comment_page: page,
    }
}

fn model(titles: &[&str], opened: usize, comments: usize) -> Model {
    Model {
        overview: titles.iter().map(|t| overview(t)).collect(),
        selected_thread: 0,
        overview_page: 1,
        data: ThreadsModel {
            data: titles.iter().take(opened).map(|t| thread(t, comments, 1)).collect(),
            selected_comment: 0,
        },
        viewer_scroll: 0,
        multiplier: vec![],
    }
}

fn titles(m: &Model) -> Vec<String> {
    m.overview.iter().map(|o| o.title.clone()).collect()
}

#[test]
fn a_new_model_is_empty() {
    let m = Model::new();
    assert!(m.overview.is_empty());
    assert!(m.data.data.is_empty());
    assert_eq!(m.selected_thread, 0);
    assert_eq!(m.overview_page, 0);
    assert_eq!(m.data.selected_comment, 0);
    assert_eq!(m.viewer_scroll, 0);
    assert!(m.multiplier.is_empty());
    let b = Model::new_bookmarks();
    assert!(b.overview.is_empty());
    assert!(b.data.data.is_empty());
}

#[test]
fn digits_one_and_two_give_twelve() {
    let mut m = Model::new();
    m.add_multiplier(1);
    m.add_multiplier(2);
    assert_eq!(m.multiplier, vec![1, 2]);
    assert_eq!(m.get_multiplier(), 12);
    assert!(m.multiplier.is_empty());
}

#[test]
fn no_digits_give_one() {
    let mut m = Model::new();
    assert_eq!(m.get_multiplier(), 1);
    assert!(m.multiplier.is_empty());
}

#[test]
fn digits_count_from_the_first() {
    let mut m = Model::new();
    for d in [0, 3, 0, 7] {
        m.add_multiplier(d);
    }
    assert_eq!(m.get_multiplier(), 307);
    m.add_multiplier(0);
    assert_eq!(m.get_multiplier(), 0);
}

#[test]
fn a_count_too_large_is_the_largest_count() {
    let mut m = Model::new();
    for d in [4, 2, 9, 4, 9, 6, 7, 2, 9, 5] {
        m.add_multiplier(d);
    }
    assert_eq!(m.get_multiplier(), 4294967295);
    for d in [4, 2, 9, 4, 9, 6, 7, 2, 9, 6] {
        m.add_multiplier(d);
    }
    assert_eq!(m.get_multiplier(), u32::MAX);
    for _ in 0..30 {
        m.add_multiplier(9);
    }
    assert_eq!(m.get_multiplier(), u32::MAX);
}

#[test]
fn what_is_no_digit_is_passed_over() {
    let mut m = Model::new();
    m.add_multiplier(10);
    m.add_multiplier(7);
    m.add_multiplier(99);
    assert_eq!(m.multiplier, vec![7]);
}

#[test]
fn clean_multiplier_forgets_the_digits() {
    let mut m = Model::new();
    m.add_multiplier(4);
    m.clean_multiplier();
    assert!(m.multiplier.is_empty());
    assert_eq!(m.get_multiplier(), 1);
}

#[test]
fn scrolling_stops_at_the_top_and_at_the_largest_offset() {
    let mut m = Model::new();
    m.scroll_up();
    assert_eq!(m.viewer_scroll, 0);
    m.scroll_down();
    m.scroll_down();
    assert_eq!(m.viewer_scroll, 2);
    m.scroll_up();
    assert_eq!(m.viewer_scroll, 1);
    m.viewer_scroll = u16::MAX;
    m.scroll_down();
    assert_eq!(m.viewer_scroll, u16::MAX);
}

#[test]
fn prev_thread_moves_up_and_shows_the_first_comment() {
    let mut m = model(&["a", "b", "c"], 3, 4);
    m.selected_thread = 2;
    m.data.selected_comment = 3;
    m.viewer_scroll = 9;
    m.prev_thread();
    assert_eq!(m.selected_thread, 1);
    assert_eq!(m.data.selected_comment, 0);
    assert_eq!(m.viewer_scroll, 0);
}

#[test]
fn prev_thread_at_the_first_thread_changes_nothing() {
    let mut m = model(&["a", "b"], 2, 4);
    m.data.selected_comment = 3;
    m.viewer_scroll = 9;
    m.prev_thread();
    assert_eq!(m.selected_thread, 0);
    assert_eq!(m.data.selected_comment, 3);
    assert_eq!(m.viewer_scroll, 9);
}

#[test]
fn prev_comment_moves_up_and_scrolls_to_the_top() {
    let mut m = model(&["a"], 1, 4);
    m.data.selected_comment = 2;
    m.viewer_scroll = 5;
    m.prev_comment();
    assert_eq!(m.data.selected_comment, 1);
    assert_eq!(m.viewer_scroll, 0);
    m.data.selected_comment = 0;
    m.viewer_scroll = 5;
    m.prev_comment();
    assert_eq!(m.data.selected_comment, 0);
    assert_eq!(m.viewer_scroll, 5);
}

#[test]
fn summaries_are_the_same_where_their_titles_are() {
    let mut a = overview("same");
    let b = overview("same");
    a.url = "elsewhere".to_string();
    a.author = "someone".to_string();
    assert!(a == b);
    assert!(overview("one") != overview("two"));
}

#[test]
fn position_finds_the_first_summary_of_the_title() {
    let m = model(&["a", "b", "a"], 0, 0);
    assert_eq!(m.position(&overview("a")), 0);
    assert_eq!(m.position(&overview("b")), 1);
    assert_eq!(m.position(&overview("z")), 3);
}

#[test]
fn add_bookmark_twice_leaves_one_entry() {
    let mut m = Model::new_bookmarks();
    m.add_bookmark(&overview("t"), &thread("t", 2, 1));
    m.add_bookmark(&overview("t"), &thread("t", 2, 1));
    assert_eq!(titles(&m), vec!["t"]);
    assert_eq!(m.data.data.len(), 1);
    assert_eq!(m.data.data[0].comments.len(), 2);
    let mut other = overview("t");
    other.url = "another address".to_string();
    m.add_bookmark(&other, &thread("t", 5, 1));
    assert_eq!(m.overview.len(), 1);
    assert_eq!(m.data.data[0].comments.len(), 2);
}

#[test]
fn add_bookmark_adds_at_the_end() {
    let mut m = Model::new_bookmarks();
    m.add_bookmark(&overview("a"), &thread("a", 1, 1));
    m.add_bookmark(&overview("b"), &thread("b", 2, 3));
    assert_eq!(titles(&m), vec!["a", "b"]);
    assert_eq!(m.data.data[1].title, "b");
    assert_eq!(m.data.data[1].comment_page, 3);
    assert_eq!(m.selected_thread, 0);
}

#[test]
fn delete_bookmark_of_the_selected_last_entry_moves_the_selection_up() {
    let mut m = model(&["a", "b", "c"], 3, 2);
    m.selected_thread = 2;
    m.data.selected_comment = 1;
    m.viewer_scroll = 4;
    m.delete_bookmark(&overview("c"));
    assert_eq!(titles(&m), vec!["a", "b"]);
    assert_eq!(m.data.data.len(), 2);
    assert_eq!(m.selected_thread, 1);
    assert_eq!(m.data.selected_comment, 1);
    assert_eq!(m.viewer_scroll, 4);
    assert!(m.is_well_formed());
}

#[test]
fn delete_bookmark_of_the_only_entry_leaves_the_selection_at_the_first() {
    let mut m = model(&["a"], 1, 2);
    m.delete_bookmark(&overview("a"));
    assert!(m.overview.is_empty());
    assert!(m.data.data.is_empty());
    assert_eq!(m.selected_thread, 0);
}

#[test]
fn delete_bookmark_of_an_unknown_title_changes_nothing() {
    let mut m = model(&["a", "b"], 2, 2);
    m.selected_thread = 1;
    m.data.selected_comment = 1;
    m.delete_bookmark(&overview("z"));
    assert_eq!(titles(&m), vec!["a", "b"]);
    assert_eq!(m.selected_thread, 1);
    assert_eq!(m.data.selected_comment, 1);
}

#[test]
fn delete_bookmark_after_the_selected_one_leaves_the_selection_alone() {
    let mut m = model(&["a", "b", "c"], 3, 3);
    m.selected_thread = 1;
    m.data.selected_comment = 2;
    m.viewer_scroll = 7;
    m.delete_bookmark(&overview("c"));
    assert_eq!(titles(&m), vec!["a", "b"]);
    assert_eq!(m.data.data.len(), 2);
    assert_eq!(m.data.data[1].title, "b");
    assert_eq!(m.selected_thread, 1);
    assert_eq!(m.data.selected_comment, 2);
    assert_eq!(m.viewer_scroll, 7);
}

#[test]
fn delete_bookmark_of_the_selected_one_moves_the_selection_up() {
    let mut m = model(&["a", "b", "c"], 3, 3);
    m.selected_thread = 1;
    m.delete_bookmark(&overview("b"));
    assert_eq!(titles(&m), vec!["a", "c"]);
    assert_eq!(m.selected_thread, 0);
    let mut first = model(&["a", "b", "c"], 3, 3);
    first.delete_bookmark(&overview("a"));
    assert_eq!(titles(&first), vec!["b", "c"]);
    assert_eq!(first.selected_thread, 0);
}

#[test]
fn delete_bookmark_before_the_selected_one_keeps_the_selection_in_the_collection() {
    let mut m = model(&["a", "b", "c", "d"], 4, 3);
    m.selected_thread = 2;
    m.delete_bookmark(&overview("a"));
    assert_eq!(titles(&m), vec!["b", "c", "d"]);
    assert_eq!(m.selected_thread, 2);
    m.delete_bookmark(&overview("b"));
    assert_eq!(titles(&m), vec!["c", "d"]);
    assert_eq!(m.selected_thread, 1);
    assert!(m.is_well_formed());
}

#[test]
fn delete_bookmark_keeps_the_selected_comment_where_the_thread_has_it() {
    let mut m = model(&["a", "b", "c"], 3, 3);
    m.data.data[0].comments.truncate(1);
    m.selected_thread = 1;
    m.data.selected_comment = 2;
    m.viewer_scroll = 5;
    m.delete_bookmark(&overview("a"));
    assert_eq!(m.selected_thread, 1);
    assert_eq!(m.data.data[1].title, "c");
    assert_eq!(m.data.selected_comment, 2);
    assert_eq!(m.viewer_scroll, 5);
    let mut short = model(&["a", "b", "c"], 3, 3);
    short.data.data[0].comments.truncate(1);
    short.selected_thread = 1;
    short.data.selected_comment = 2;
    short.viewer_scroll = 5;
    short.delete_bookmark(&overview("b"));
    assert_eq!(short.selected_thread, 0);
    assert_eq!(short.data.selected_comment, 0);
    assert_eq!(short.viewer_scroll, 0);
    assert!(short.is_well_formed());
}

#[test]
fn select_opens_the_thread_after_the_opened_ones() {
    let mut m = model(&["a", "b", "c"], 1, 2);
    m.viewer_scroll = 3;
    assert!(m.select(1));
    assert_eq!(m.selected_thread, 1);
    assert_eq!(m.data.data.len(), 2);
    assert_eq!(m.data.data[1].title, "b");
    assert!(m.data.data[1].comments.is_empty());
    assert_eq!(m.data.data[1].comment_page, 0);
    assert_eq!(m.viewer_scroll, 0);
    assert!(m.select(0));
    assert_eq!(m.data.data.len(), 2);
}

#[test]
fn select_refuses_a_thread_without_summary_or_beyond_the_opened_ones() {
    let mut m = model(&["a", "b", "c"], 1, 2);
    assert!(!m.select(3));
    assert!(!m.select(2));
    assert_eq!(m.selected_thread, 0);
    assert_eq!(m.data.data.len(), 1);
}

#[test]
fn ensure_thread_covered_asks_for_the_next_page_of_the_overview() {
    let mut m = model(&["a", "b"], 1, 2);
    assert_eq!(m.ensure_thread_covered(2), Outcome::Ask(Wait::Threads { target: 2 }));
    assert_eq!(m.selected_thread, 0);
    assert_eq!(m.overview_page, 1);
}

#[test]
fn threads_came_adds_the_page_and_counts_it() {
    let mut m = model(&["a", "b"], 2, 2);
    m.selected_thread = 1;
    let out = m.threads_came(2, vec![overview("c"), overview("d")]);
    assert_eq!(out, Outcome::Ask(Wait::Comments { target: 0 }));
    assert_eq!(titles(&m), vec!["a", "b", "c", "d"]);
    assert_eq!(m.overview_page, 2);
    assert_eq!(m.selected_thread, 2);
    assert_eq!(m.data.data.len(), 3);
    let again = m.ensure_thread_covered(2);
    assert_eq!(again, Outcome::Ask(Wait::Comments { target: 0 }));
    assert_eq!(m.overview_page, 2);
    assert_eq!(m.overview.len(), 4);
}

#[test]
fn a_search_that_has_finished_asks_for_nothing_when_made_again() {
    let mut m = model(&["a", "b"], 2, 2);
    m.selected_thread = 1;
    assert_eq!(m.threads_came(2, vec![overview("c")]), Outcome::Ask(Wait::Comments { target: 0 }));
    assert_eq!(m.comments_came(0, vec![comment("x")]), Outcome::Finished);
    assert_eq!(m.ensure_thread_covered(2), Outcome::Finished);
    assert_eq!(m.overview_page, 2);
    assert_eq!(m.data.data[2].comment_page, 1);
    assert_eq!(m.selected_thread, 2);
}

#[test]
fn an_empty_page_of_the_overview_ends_the_search_at_the_last_thread() {
    let mut m = model(&["a", "b"], 2, 2);
    m.selected_thread = 1;
    m.viewer_scroll = 3;
    assert_eq!(m.threads_came(2, vec![]), Outcome::Finished);
    assert_eq!(m.selected_thread, 1);
    assert_eq!(m.overview_page, 2);
    assert_eq!(m.viewer_scroll, 0);
}

#[test]
fn an_empty_page_for_an_empty_overview_is_an_error() {
    let mut m = Model::new();
    assert_eq!(
        m.threads_came(0, vec![]),
        Outcome::Failed(NavError::Fetch(FetchError::EmptyPage))
    );
    assert_eq!(m.overview_page, 1);
}

#[test]
fn the_overview_stops_growing_when_pages_cannot_be_counted() {
    let mut m = model(&["a", "b"], 2, 2);
    m.overview_page = u16::MAX;
    m.selected_thread = 1;
    assert_eq!(m.ensure_thread_covered(2), Outcome::Finished);
    assert_eq!(m.selected_thread, 1);
    m.add_overviews(vec![overview("c")]);
    assert_eq!(m.overview.len(), 2);
    assert_eq!(m.overview_page, u16::MAX);
}

#[test]
fn ensure_comment_covered_shows_a_comment_that_is_there() {
    let mut m = model(&["a"], 1, 3);
    m.viewer_scroll = 6;
    assert_eq!(m.ensure_comment_covered(2), Outcome::Finished);
    assert_eq!(m.data.selected_comment, 2);
    assert_eq!(m.viewer_scroll, 0);
}

#[test]
fn ensure_comment_covered_asks_for_the_next_page_of_the_thread() {
    let mut m = model(&["a"], 1, 3);
    m.data.selected_comment = 2;
    assert_eq!(m.ensure_comment_covered(3), Outcome::Ask(Wait::Comments { target: 3 }));
    assert_eq!(m.data.selected_comment, 2);
    assert_eq!(m.comments_came(3, vec![comment("x"), comment("y")]), Outcome::Finished);
    assert_eq!(m.data.selected_comment, 3);
    assert_eq!(m.data.data[0].comments.len(), 5);
    assert_eq!(m.data.data[0].comment_page, 2);
}

#[test]
fn an_empty_page_of_comments_ends_the_search_at_the_last_comment() {
    let mut m = model(&["a"], 1, 3);
    m.data.selected_comment = 2;
    assert_eq!(m.comments_came(3, vec![]), Outcome::Finished);
    assert_eq!(m.data.selected_comment, 2);
    assert_eq!(m.data.data[0].comment_page, 2);
}

#[test]
fn an_empty_page_for_a_thread_without_comments_is_an_error() {
    let mut m = model(&["a"], 1, 0);
    assert_eq!(
        m.comments_came(0, vec![]),
        Outcome::Failed(NavError::Fetch(FetchError::EmptyPage))
    );
    assert_eq!(m.data.selected_comment, 0);
}

#[test]
fn a_search_for_a_comment_of_an_unopened_thread_is_not_found() {
    let mut m = model(&["a", "b"], 1, 3);
    m.selected_thread = 1;
    assert_eq!(m.ensure_comment_covered(0), Outcome::Failed(NavError::NotFound));
    assert_eq!(m.clean_comments(), Outcome::Failed(NavError::NotFound));
}

#[test]
fn nothing_happens_to_comments_in_an_empty_collection() {
    let mut m = Model::new();
    assert_eq!(m.next_comment(), Outcome::Finished);
    assert_eq!(m.clean_comments(), Outcome::Finished);
    assert_eq!(m.data.selected_comment, 0);
}

#[test]
fn next_thread_in_the_bookmarks_ends_at_the_last_thread() {
    let mut m = model(&["a", "b"], 2, 3);
    m.data.selected_comment = 2;
    assert_eq!(m.next_thread(&TabState::Bookmarks), Outcome::Finished);
    assert_eq!(m.selected_thread, 1);
    assert_eq!(m.data.selected_comment, 0);
    assert_eq!(m.next_thread(&TabState::Bookmarks), Outcome::Finished);
    assert_eq!(m.selected_thread, 1);
    assert_eq!(m.overview_page, 1);
    let mut empty = Model::new_bookmarks();
    assert_eq!(empty.next_thread(&TabState::Bookmarks), Outcome::Finished);
    assert_eq!(empty.selected_thread, 0);
}

#[test]
fn next_thread_at_home_asks_for_the_overview_at_the_last_thread() {
    let mut m = model(&["a", "b"], 2, 3);
    assert_eq!(m.next_thread(&TabState::Home), Outcome::Finished);
    assert_eq!(m.selected_thread, 1);
    assert_eq!(m.next_thread(&TabState::Home), Outcome::Ask(Wait::Threads { target: 2 }));
    assert_eq!(m.selected_thread, 1);
    let mut empty = Model::new();
    assert_eq!(empty.next_thread(&TabState::Home), Outcome::Ask(Wait::Threads { target: 0 }));
}

#[test]
fn clean_comments_drops_the_comments_and_asks_for_the_first_page() {
    let mut m = model(&["a"], 1, 3);
    m.data.data[0].comment_page = 4;
    m.data.selected_comment = 2;
    m.viewer_scroll = 8;
    assert_eq!(m.clean_comments(), Outcome::Ask(Wait::Comments { target: 0 }));
    assert!(m.data.data[0].comments.is_empty());
    assert_eq!(m.data.data[0].comment_page, 0);
    assert_eq!(m.data.data[0].title, "a");
    assert_eq!(m.data.selected_comment, 0);
    assert_eq!(m.viewer_scroll, 0);
    assert_eq!(m.comments_came(0, vec![comment("new")]), Outcome::Finished);
    assert_eq!(m.data.data[0].comment_page, 1);
    assert_eq!(m.data.data[0].comments.len(), 1);
}

#[test]
fn is_well_formed_tells_a_collection_in_order() {
    assert!(Model::new().is_well_formed());
    let mut m = model(&["a", "b", "c"], 2, 3);
    assert!(m.is_well_formed());
    m.selected_thread = 2;
    assert!(m.is_well_formed());
    m.data.selected_comment = 1;
    assert!(!m.is_well_formed());
    m.selected_thread = 1;
    assert!(m.is_well_formed());
    m.data.selected_comment = 3;
    assert!(!m.is_well_formed());
    m.data.selected_comment = 0;
    m.selected_thread = 3;
    assert!(!m.is_well_formed());
    m.selected_thread = 0;
    m.multiplier = vec![1, 10];
    assert!(!m.is_well_formed());
    m.multiplier = vec![1, 9];
    assert!(m.is_well_formed());
    m.data.data[1].title = "z".to_string();
    assert!(!m.is_well_formed());
    let mut more_threads = model(&["a"], 1, 1);
    more_threads.data.data.push(thread("b", 1, 1));
    assert!(!more_threads.is_well_formed());
}

#[test]
fn is_closed_and_is_distinct_tell_the_shape_of_bookmarks() {
    assert!(model(&["a", "b"], 2, 1).is_closed());
    assert!(!model(&["a", "b"], 1, 1).is_closed());
    assert!(model(&["a", "b", "c"], 0, 0).is_distinct());
    assert!(!model(&["a", "b", "a"], 0, 0).is_distinct());
    assert!(!model(&["a", "a"], 0, 0).is_distinct());
    assert!(Model::new_bookmarks().is_distinct());
}

#[test]
fn every_step_leaves_the_collection_in_order() {
    let mut m = model(&["a", "b"], 2, 2);
    assert!(m.is_well_formed());
    m.next_thread(&TabState::Home);
    assert!(m.is_well_formed());
    m.next_thread(&TabState::Home);
    m.threads_came(2, vec![overview("c")]);
    assert!(m.is_well_formed());
    m.comments_came(0, vec![comment("x"), comment("y")]);
    m.next_comment();
    assert!(m.is_well_formed());
    m.prev_thread();
    assert!(m.is_well_formed());
    m.clean_comments();
    assert!(m.is_well_formed());
    m.delete_bookmark(&overview("a"));
    assert!(m.is_well_formed());
    m.delete_bookmark(&overview("b"));
    m.delete_bookmark(&overview("c"));
    assert!(m.is_well_formed());
    assert!(m.overview.is_empty());
}
