//! Walking forward through a forum that answers.
//!
//! The controller asks for pages and is handed pages. This module says what
//! comes of that when every page that is asked for comes and holds
//! something: a forum is a rule that gives each page its records, and
//! [`served`] hands the controller the pages that it asks for until it asks
//! for none. The laws say where steps to the next thread then end, and which
//! pages they fetch.

use crate::browser::{request, resumed, run, step, updated, BrowserView, EffectView, Job,
    PageView};
use crate::error::FetchError;
use crate::model::{at_comment, comments_came, digits_value, enter_thread, limit, next_thread,
    repeat_count, seek_comments, seek_thread, selected, threads_came, with_comments,
    with_overviews, Action, ModelView, Outcome, TabState, Wait};
use crate::overview::OverviewView;
use crate::thread::{CommentView, ThreadView};
use vstd::prelude::*;

verus! {

/// A forum: the summaries on each page of its overview, and the comments
/// on each page of the thread that a summary stands for.
pub struct Forum {
    pub overview: spec_fn(int) -> Seq<OverviewView>,
    pub comments: spec_fn(OverviewView, int) -> Seq<CommentView>,
}

/// The page that the forum hands to a controller that waits.
pub open spec fn answer(forum: Forum, b: BrowserView) -> PageView {
    let m = b.active();
    match b.job {
        Job::Running { wait: Wait::Threads { .. }, .. } => PageView::Overviews(
            (forum.overview)(m.overview_page + 1),
        ),
        Job::Running { wait: Wait::Comments { .. }, .. } => PageView::Comments(
            (forum.comments)(
                m.overview[m.selected_thread],
                m.threads[m.selected_thread].comment_page as int + 1,
            ),
        ),
        Job::Idle => PageView::Failed(FetchError::Transport),
    }
}

/// Whether an answer asks for a page.
pub open spec fn asks(e: EffectView) -> bool {
    e is FetchOverview || e is FetchThread
}

/// The controller and its answer after the forum has handed in the pages
/// that were asked for, one after the other, `fuel` pages at most.
pub open spec fn served(forum: Forum, b: BrowserView, e: EffectView, fuel: nat) -> (
    BrowserView,
    EffectView,
)
    decreases fuel,
{
    if fuel == 0 || !asks(e) {
        (b, e)
    } else {
        let (b1, e1) = resumed(b, answer(forum, b));
        served(forum, b1, e1, (fuel - 1) as nat)
    }
}

/// The collection with the summary of the thread after the selected one:
/// as it is where it holds that summary, else with the next page of the
/// overview.
pub open spec fn reached(m: ModelView, forum: Forum) -> ModelView {
    if m.selected_thread + 1 < m.overview.len() {
        m
    } else {
        with_overviews(m, (forum.overview)(m.overview_page + 1))
    }
}

/// The collection one thread further: the thread after the selected one is
/// selected, and its first comment is shown from its top. Where that thread
/// had not been opened, it is opened under its summary, with the first
/// page of its comments.
pub open spec fn forward(m: ModelView, forum: Forum) -> ModelView {
    let grown = reached(m, forum);
    let next = m.selected_thread + 1;
    ModelView {
        selected_thread: next,
        selected_comment: 0,
        viewer_scroll: 0,
        threads: if next < grown.threads.len() {
            grown.threads
        } else {
            grown.threads.push(opened_under(forum, grown.overview[next]))
        },
        ..grown
    }
}

/// The thread that a step forward opens under a summary: it has the
/// summary's title and the first page of its comments.
pub open spec fn opened_under(forum: Forum, summary: OverviewView) -> ThreadView {
    ThreadView { title: summary.title, comments: (forum.comments)(summary, 1), comment_page: 1 }
}

/// The collection `k` threads further.
pub open spec fn forwarded(m: ModelView, forum: Forum, k: nat) -> ModelView
    decreases k,
{
    if k == 0 {
        m
    } else {
        forwarded(forward(m, forum), forum, (k - 1) as nat)
    }
}

/// Whether `k` steps forward can be walked: a thread is selected and open,
/// no more threads are open than there are summaries, each open thread
/// after the selected one holds a comment, selections and page numbers can
/// count that far, each further page of the overview holds a summary, and
/// the first page of each thread holds a comment.
pub open spec fn walkable(m: ModelView, forum: Forum, k: nat) -> bool {
    &&& 0 <= m.selected_thread < m.threads.len() <= m.overview.len()
    &&& forall|i: int|
        m.selected_thread < i < m.threads.len() ==> (#[trigger] m.threads[i]).comments.len() > 0
    &&& m.selected_thread + k <= limit()
    &&& 0 <= m.overview_page
    &&& m.overview_page + k <= limit()
    &&& forall|p: int| m.overview_page < p ==> (#[trigger] (forum.overview)(p)).len() > 0
    &&& forall|o: OverviewView| (#[trigger] (forum.comments)(o, 1)).len() > 0
}

/// One step leaves what the steps after it need.
pub proof fn lemma_forward_walkable(m: ModelView, forum: Forum, k: nat)
    requires
        walkable(m, forum, k),
        k >= 1,
    ensures
        walkable(forward(m, forum), forum, (k - 1) as nat),
        reached(m, forum).overview.len() > m.selected_thread + 1,
{
    let page = (forum.overview)(m.overview_page + 1);
    assert(page.len() > 0);
    let f = forward(m, forum);
    assert forall|i: int| f.selected_thread < i < f.threads.len() implies (
    #[trigger] f.threads[i]).comments.len() > 0 by {
        assert(f.threads[i] == m.threads[i]);
    }
}

/// Entering the thread after the selected one, once its summary is there.
/// Where the thread is open and holds a comment, the step is done at once.
/// Where it has not been opened, it is opened, the first page of its
/// comments is asked for, and when that page has come the step is done.
/// Either way the collection is then one thread further.
pub proof fn lemma_enter_next(g: ModelView, forum: Forum)
    requires
        0 <= g.selected_thread,
        g.selected_thread + 1 < g.overview.len(),
        g.selected_thread + 1 <= limit(),
        g.selected_thread < g.threads.len(),
        g.selected_thread + 1 < g.threads.len() ==> g.threads[g.selected_thread + 1].comments.len()
            > 0,
        (forum.comments)(g.overview[g.selected_thread + 1], 1).len() > 0,
        reached(g, forum) == g,
    ensures
        ({
            let next = g.selected_thread + 1;
            let chosen = selected(g, next);
            let page = (forum.comments)(g.overview[next], 1);
            if next < g.threads.len() {
                enter_thread(g, next) == (forward(g, forum), Outcome::Finished)
            } else {
                &&& enter_thread(g, next) == (chosen, Outcome::Ask(Wait::Comments { target: 0 }))
                &&& chosen.overview[chosen.selected_thread] == g.overview[next]
                &&& chosen.threads[chosen.selected_thread].comment_page == 0
                &&& comments_came(chosen, 0, page) == (forward(g, forum), Outcome::Finished)
            }
        }),
{
    let next = g.selected_thread + 1;
    let chosen = selected(g, next);
    let page = (forum.comments)(g.overview[next], 1);
    if next < g.threads.len() {
        assert(seek_comments(chosen, 0) == (at_comment(chosen, 0), Outcome::Finished));
    } else {
        assert(seek_comments(chosen, 0) == (chosen, Outcome::Ask(Wait::Comments { target: 0 })));
        let grown = with_comments(chosen, page);
        assert(Seq::<CommentView>::empty() + page =~= page);
        assert(grown.threads =~= g.threads.push(opened_under(forum, g.overview[next])));
        assert(seek_comments(grown, 0) == (at_comment(grown, 0), Outcome::Finished));
    }
}

/// A further page of the overview does not change what one thread further
/// is, once it has come.
pub proof fn lemma_forward_of_reached(m: ModelView, forum: Forum)
    requires
        walkable(m, forum, 1),
    ensures
        reached(reached(m, forum), forum) == reached(m, forum),
        forward(reached(m, forum), forum) == forward(m, forum),
{
    let page = (forum.overview)(m.overview_page + 1);
    assert(page.len() > 0);
}

/// Steps forward through a forum that answers. The action that steps `k`
/// times to the next thread, with every page handed in that it asks for,
/// ends done, `k` threads further; at most two pages are asked for in each
/// step. The bookmarks stay as they are.
pub proof fn lemma_walk(forum: Forum, b: BrowserView, k: nat, fuel: nat)
    requires
        b.tab == TabState::Home,
        walkable(b.home, forum, k),
        k <= u32::MAX,
        fuel >= 2 * k,
    ensures
        ({
            let (b0, e0) = run(b, Action::NextThread, k);
            served(forum, b0, e0, fuel) == (
                BrowserView { home: forwarded(b.home, forum, k), job: Job::Idle, ..b },
                EffectView::Done,
            )
        }),
    decreases k,
{
    let action = Action::NextThread;
    if k > 0 {
        let m = b.home;
        let next = m.selected_thread + 1;
        lemma_forward_walkable(m, forum, k);
        lemma_forward_of_reached(m, forum);
        let grown = reached(m, forum);
        let chosen = selected(grown, next);
        let wait = Wait::Comments { target: 0 };
        let page = (forum.comments)(grown.overview[next], 1);
        lemma_enter_next(grown, forum);
        let end = (
            BrowserView { home: forwarded(m, forum, k), job: Job::Idle, ..b },
            EffectView::Done,
        );
        let (b0, e0) = run(b, action, k);
        if next < m.overview.len() {
            assert(grown == m);
            assert(next_thread(m, TabState::Home) == enter_thread(m, next));
            if next < m.threads.len() {
                // The thread is open: the step is done without a page.
                let after = BrowserView { home: forward(m, forum), ..b };
                assert(b.with_active(forward(m, forum)) == after);
                assert(step(b, action) == (after, Outcome::Finished));
                assert(run(b, action, k) == run(after, action, (k - 1) as nat));
                lemma_walk(forum, after, (k - 1) as nat, fuel);
                assert(served(forum, b0, e0, fuel) == end);
            } else {
                // The thread is opened, and the first page of its comments comes.
                let waiting = BrowserView {
                    home: chosen,
                    job: Job::Running { action, left: k as u32, wait },
                    ..b
                };
                let after = BrowserView { home: forward(m, forum), ..waiting };
                assert(answer(forum, waiting) == PageView::Comments(page));
                assert(waiting.with_active(forward(m, forum)) == after);
                assert(resumed(waiting, answer(forum, waiting)) == run(
                    after,
                    action,
                    (k - 1) as nat,
                ));
                lemma_walk(forum, after, (k - 1) as nat, (fuel - 1) as nat);
                assert(asks(request(BrowserView { home: chosen, ..b }, wait)));
                assert(step(b, action) == (BrowserView { home: chosen, ..b }, Outcome::Ask(wait)));
                assert(b0 == waiting);
                assert(asks(e0));
                assert(served(forum, b0, e0, fuel) == served(
                    forum,
                    run(after, action, (k - 1) as nat).0,
                    run(after, action, (k - 1) as nat).1,
                    (fuel - 1) as nat,
                ));
                assert(served(forum, b0, e0, fuel) == end);
            }
        } else {
            // The next page of the overview comes, the thread is opened, and the
            // first page of its comments comes.
            let first = Wait::Threads { target: next as u16 };
            let asking = BrowserView { job: Job::Running { action, left: k as u32, wait: first }, ..b };
            let waiting = BrowserView {
                home: chosen,
                job: Job::Running { action, left: k as u32, wait },
                ..b
            };
            let after = BrowserView { home: forward(m, forum), ..waiting };
            assert(answer(forum, waiting) == PageView::Comments(page));
            assert(waiting.with_active(forward(m, forum)) == after);
            assert(resumed(waiting, answer(forum, waiting)) == run(after, action, (k - 1) as nat));
            lemma_walk(forum, after, (k - 1) as nat, (fuel - 2) as nat);
            assert(next_thread(m, TabState::Home) == (m, Outcome::Ask(first)));
            assert(step(b, action) == (b, Outcome::Ask(first)));
            assert(b0 == asking);
            assert(asks(e0));
            let summaries = (forum.overview)(m.overview_page + 1);
            assert(answer(forum, asking) == PageView::Overviews(summaries));
            assert(threads_came(m, next, summaries) == seek_thread(grown, next));
            assert(seek_thread(grown, next) == enter_thread(grown, next));
            assert(asking.with_active(chosen) == BrowserView { home: chosen, ..asking });
            assert(asks(request(BrowserView { home: chosen, ..asking }, wait)));
            assert(resumed(asking, answer(forum, asking)).0 == waiting);
            assert(asks(resumed(asking, answer(forum, asking)).1));
            assert(served(forum, b0, e0, fuel) == served(
                forum,
                waiting,
                resumed(asking, answer(forum, asking)).1,
                (fuel - 1) as nat,
            ));
            assert(served(forum, b0, e0, fuel) == served(
                forum,
                run(after, action, (k - 1) as nat).0,
                run(after, action, (k - 1) as nat).1,
                (fuel - 2) as nat,
            ));
            assert(served(forum, b0, e0, fuel) == end);
        }
    } else {
        assert(run(b, action, 0) == (b.idle(), EffectView::Done));
    }
}

/// Steps forward can be taken in two parts.
pub proof fn lemma_forwarded_split(m: ModelView, forum: Forum, a: nat, b: nat)
    requires
        walkable(m, forum, a + b),
    ensures
        forwarded(m, forum, a + b) == forwarded(forwarded(m, forum, a), forum, b),
        walkable(forwarded(m, forum, a), forum, b),
    decreases a,
{
    if a > 0 {
        lemma_forward_walkable(m, forum, a + b);
        lemma_forwarded_split(forward(m, forum), forum, (a - 1) as nat, b);
        assert(forwarded(m, forum, a + b) == forwarded(
            forward(m, forum),
            forum,
            (a + b - 1) as nat,
        ));
    }
}

/// Where `k` steps forward end. The selection is `k` threads further, on a
/// thread that has its summary and is open. The threads that were open
/// stay as they are; each thread on the way that was not open has been
/// opened under its summary, with the first page of its comments. The
/// summaries that were there stay the first summaries, and at most one page
/// of the overview has come for each step. After a step the first comment
/// is shown from its top. The repeat count is not touched.
pub proof fn lemma_forwarded(m: ModelView, forum: Forum, k: nat)
    requires
        walkable(m, forum, k),
    ensures
        ({
            let r = forwarded(m, forum, k);
            let s = m.selected_thread;
            &&& r.selected_thread == s + k
            &&& r.selected_thread < r.threads.len()
            &&& r.selected_thread < r.overview.len()
            &&& r.threads.len() == if m.threads.len() > s + k {
                m.threads.len()
            } else {
                (s + k + 1) as nat
            }
            &&& r.multiplier == m.multiplier
            &&& m.overview.len() <= r.overview.len()
            &&& forall|i: int| 0 <= i < m.overview.len() ==> #[trigger] r.overview[i] == m.overview[i]
            &&& forall|i: int| 0 <= i < m.threads.len() ==> #[trigger] r.threads[i] == m.threads[i]
            &&& forall|i: int|
                m.threads.len() <= i <= s + k ==> #[trigger] r.threads[i] == opened_under(
                    forum,
                    r.overview[i],
                )
            &&& m.overview_page <= r.overview_page <= m.overview_page + k
            &&& k > 0 ==> r.selected_comment == 0 && r.viewer_scroll == 0
        }),
    decreases k,
{
    if k > 0 {
        let f = forward(m, forum);
        let r = forwarded(m, forum, k);
        let s = m.selected_thread;
        lemma_forward_walkable(m, forum, k);
        lemma_forwarded(f, forum, (k - 1) as nat);
        assert forall|i: int| 0 <= i < m.overview.len() implies #[trigger] r.overview[i]
            == m.overview[i] by {
            assert(f.overview[i] == m.overview[i]);
        }
        assert forall|i: int| 0 <= i < m.threads.len() implies #[trigger] r.threads[i]
            == m.threads[i] by {
            assert(f.threads[i] == m.threads[i]);
        }
        assert forall|i: int| m.threads.len() <= i <= s + k implies #[trigger] r.threads[i]
            == opened_under(forum, r.overview[i]) by {
            if i < f.threads.len() {
                assert(i == s + 1);
                assert(r.threads[i] == f.threads[i]);
                assert(r.overview[i] == f.overview[i]);
            }
        }
    }
}

/// Steps forward that stay among the summaries that have been fetched
/// fetch no page of the overview.
pub proof fn lemma_forwarded_within(m: ModelView, forum: Forum, k: nat)
    requires
        walkable(m, forum, k),
        m.selected_thread + k < m.overview.len(),
    ensures
        forwarded(m, forum, k).overview == m.overview,
        forwarded(m, forum, k).overview_page == m.overview_page,
    decreases k,
{
    if k > 0 {
        lemma_forward_walkable(m, forum, k);
        lemma_forwarded_within(forward(m, forum), forum, (k - 1) as nat);
    }
}

/// Twenty-five threads forward. The home collection holds the first page of
/// the overview, twenty summaries, with the first thread selected and open,
/// and each thread that is open after it holds a comment; each further page
/// holds twenty summaries, and the first page of each thread holds a
/// comment. The digits 2 and 5 and a step to the next thread, with every
/// page handed in that is asked for, end done on thread 25. One page of the
/// overview has been fetched for it, the second, and no other. Thread 25 is
/// open under its summary, with the first page of its comments, and its
/// first comment is shown from its top. The repeat count is forgotten.
pub proof fn lemma_twenty_five_forward(forum: Forum, b: BrowserView)
    requires
        b.job is Idle,
        b.tab == TabState::Home,
        b.home.multiplier == seq![2u32, 5u32],
        b.home.overview.len() == 20,
        b.home.overview_page == 1,
        b.home.selected_thread == 0,
        1 <= b.home.threads.len() <= 20,
        forall|i: int| 1 <= i < b.home.threads.len() ==> (#[trigger] b.home.threads[i]).comments.len() > 0,
        forall|p: int| 1 < p ==> (#[trigger] (forum.overview)(p)).len() == 20,
        forall|o: OverviewView| (#[trigger] (forum.comments)(o, 1)).len() > 0,
    ensures
        ({
            let (b0, e0) = updated(b, Action::NextThread);
            let (b1, e1) = served(forum, b0, e0, 50);
            let m = b1.home;
            &&& e1 == EffectView::Done
            &&& b1.job == Job::Idle
            &&& b1.tab == b.tab
            &&& b1.bookmarks == b.bookmarks
            &&& m.selected_thread == 25
            &&& m.selected_comment == 0
            &&& m.viewer_scroll == 0
            &&& m.multiplier == Seq::<u32>::empty()
            &&& m.overview == b.home.overview + (forum.overview)(2)
            &&& m.overview.len() == 40
            &&& m.overview_page == 2
            &&& m.threads.len() == 26
            &&& m.threads[25] == opened_under(forum, m.overview[25])
            &&& m.threads[25].title == m.overview[25].title
            &&& m.threads[25].comment_page == 1
            &&& m.threads[25].comments.len() > 0
        }),
{
    let digits = seq![2u32, 5u32];
    assert(digits.drop_last() =~= seq![2u32]);
    assert(seq![2u32].drop_last() =~= Seq::<u32>::empty());
    assert(digits_value(digits) == 25) by {
        reveal_with_fuel(digits_value, 3);
    }
    assert(repeat_count(digits) == 25);
    let start = ModelView { multiplier: Seq::empty(), ..b.home };
    let cleared = BrowserView { home: start, ..b };
    assert(b.with_active(start) == cleared);
    assert(updated(b, Action::NextThread) == run(cleared, Action::NextThread, 25));
    assert(walkable(start, forum, 25));
    lemma_walk(forum, cleared, 25, 50);
    // Nineteen steps among the summaries of the first page.
    lemma_forwarded_split(start, forum, 19, 6);
    let m19 = forwarded(start, forum, 19);
    lemma_forwarded_within(start, forum, 19);
    lemma_forwarded(start, forum, 19);
    // The twentieth step fetches the second page.
    lemma_forwarded_split(m19, forum, 1, 5);
    let m20 = forwarded(m19, forum, 1);
    assert(forwarded(forward(m19, forum), forum, 0) == forward(m19, forum));
    assert(m20 == forward(m19, forum));
    assert(m20.overview == start.overview + (forum.overview)(2));
    // Five more steps among the summaries of the second page.
    lemma_forwarded_within(m20, forum, 5);
    lemma_forwarded(m20, forum, 5);
    assert(forwarded(start, forum, 25) == forwarded(m20, forum, 5));
}

} // verus!
