//! A collection of threads and the place of the reader in it.
//!
//! A [`Model`] holds the summaries that have been fetched so far, the
//! threads that have been opened, the selection, the scroll offset and the
//! digits of a repeat count that is being entered. The home collection grows
//! page by page; the bookmarks are a second collection of the same shape.

use crate::error::{FetchError, NavError};
use crate::overview::{overview_views, OverviewView, ThreadOverview};
use crate::thread::{comment_views, CommentView, ThreadComment, ThreadData, ThreadView};
use vstd::prelude::*;

pub use crate::browser::update;

verus! {

/// The threads that have been opened, and the selected comment of the
/// selected thread.
pub struct ThreadsModel {
    pub data: Vec<ThreadData>,
    pub selected_comment: u16,
}

/// Which collection is shown.
#[derive(Clone, Copy, Debug, PartialEq, Eq, Structural)]
pub enum TabState {
    Home,
    Bookmarks,
}

/// What the reader asks for.
#[derive(Clone, Copy, Debug, PartialEq, Eq, Structural)]
pub enum Action {
    NextThread,
    PrevThread,
    NextComment,
    PrevComment,
    ScrollDown,
    ScrollUp,
    Quit,
    Nothing,
    /// One more digit of the repeat count.
    Moltiply(u32),
    /// Forget the repeat count.
    Nullify,
    /// Drop the comments of the selected thread and fetch them afresh.
    CleanComments,
    /// Bookmark the selected thread of the home collection.
    AddBookmark,
    /// Remove the bookmark of the selected thread.
    RemoveBookmark,
}

/// The page that a collection waits for, and the thread or comment that
/// the page is hoped to reach.
#[derive(Clone, Copy, Debug, PartialEq, Eq, Structural)]
pub enum Wait {
    /// The next page of the overview, to reach thread `target`.
    Threads { target: u16 },
    /// The next page of the selected thread, to reach comment `target`.
    Comments { target: u16 },
}

/// How a step of an action ended.
#[derive(Clone, Copy, Debug, PartialEq, Eq, Structural)]
pub enum Outcome {
    /// The step is done.
    Finished,
    /// The step goes on when a page has come.
    Ask(Wait),
    /// The step was given up.
    Failed(NavError),
}

/// A collection of threads and the place of the reader in it.
pub struct Model {
    pub overview: Vec<ThreadOverview>,
    pub selected_thread: u16,
    /// The number of the last page of the overview that was fetched; 0
    /// before the first.
    pub overview_page: u16,
    pub data: ThreadsModel,
    pub viewer_scroll: u16,
    /// The digits of the repeat count entered so far, first digit first.
    pub multiplier: Vec<u32>,
}

/// The values of a run of threads.
pub open spec fn thread_views(threads: Seq<ThreadData>) -> Seq<ThreadView> {
    threads.map_values(|t: ThreadData| t@)
}

/// The mathematical value of a [`Model`].
pub struct ModelView {
    pub overview: Seq<OverviewView>,
    pub selected_thread: int,
    pub overview_page: int,
    pub threads: Seq<ThreadView>,
    pub selected_comment: int,
    pub viewer_scroll: int,
    pub multiplier: Seq<u32>,
}

impl View for Model {
    type V = ModelView;

    open spec fn view(&self) -> ModelView {
        ModelView {
            overview: overview_views(self.overview@),
            selected_thread: self.selected_thread as int,
            overview_page: self.overview_page as int,
            threads: thread_views(self.data.data@),
            selected_comment: self.data.selected_comment as int,
            viewer_scroll: self.viewer_scroll as int,
            multiplier: self.multiplier@,
        }
    }
}

/// The largest value of a selection, a scroll offset or a page number.
pub open spec fn limit() -> int {
    u16::MAX as int
}

impl ModelView {
    /// Whether the collection is in order. No more threads have been opened
    /// than there are summaries, and each opened thread goes with the
    /// summary at its place. Where there are summaries, one of them is
    /// selected, and the threads before it have been opened. The selected
    /// comment is a comment of the selected thread, or the first where that
    /// thread has none. The repeat count is made of digits.
    pub open spec fn wf(self) -> bool {
        &&& self.threads.len() <= self.overview.len()
        &&& forall|i: int|
            0 <= i < self.threads.len() ==> (#[trigger] self.threads[i]).title
                == self.overview[i].title
        &&& 0 <= self.selected_thread <= self.threads.len()
        &&& self.overview.len() > 0 ==> self.selected_thread < self.overview.len()
        &&& self.selected_comment == 0 || (self.selected_thread < self.threads.len() && 0
            <= self.selected_comment < self.threads[self.selected_thread].comments.len())
        &&& forall|i: int| 0 <= i < self.multiplier.len() ==> #[trigger] self.multiplier[i] <= 9
    }

    /// Whether the selected thread has been opened, where there is one.
    pub open spec fn settled(self) -> bool {
        self.overview.len() > 0 ==> self.selected_thread < self.threads.len()
    }

    /// Whether the collection is in order and the selected thread, where
    /// there is one, has been opened: the state between two actions.
    pub open spec fn steady(self) -> bool {
        self.wf() && self.settled()
    }

    /// Whether no two summaries have the same title.
    pub open spec fn distinct(self) -> bool {
        forall|i: int, j: int|
            0 <= i < j < self.overview.len() ==> (#[trigger] self.overview[i]).title != (
            #[trigger] self.overview[j]).title
    }

    /// Whether every summary has its thread: the shape of the bookmarks.
    pub open spec fn closed(self) -> bool {
        self.threads.len() == self.overview.len()
    }
}

/// The value of a run of digits, the first digit counting most.
pub open spec fn digits_value(digits: Seq<u32>) -> nat
    decreases digits.len(),
{
    if digits.len() == 0 {
        0
    } else {
        digits_value(digits.drop_last()) * 10 + digits.last() as nat
    }
}

/// The repeat count that a run of digits stands for: 1 where no digit was
/// entered, else the value of the digits, and the largest count where the
/// value is larger.
pub open spec fn repeat_count(digits: Seq<u32>) -> nat {
    if digits.len() == 0 {
        1
    } else if digits_value(digits) > u32::MAX {
        u32::MAX as nat
    } else {
        digits_value(digits)
    }
}

/// The empty collection: nothing fetched, nothing opened, nothing entered.
pub open spec fn empty_model() -> ModelView {
    ModelView {
        overview: Seq::empty(),
        selected_thread: 0,
        overview_page: 0,
        threads: Seq::empty(),
        selected_comment: 0,
        viewer_scroll: 0,
        multiplier: Seq::empty(),
    }
}

/// The smaller of two numbers.
pub open spec fn least(a: int, b: int) -> int {
    if a <= b {
        a
    } else {
        b
    }
}

impl Model {
    /// An empty collection.
    pub fn new() -> (m: Model)
        ensures
            m@ == empty_model(),
            m@.wf(),
            m@.distinct(),
            m@.closed(),
    {
        let m = Model {
            overview: Vec::new(),
            selected_thread: 0,
            overview_page: 0,
            data: ThreadsModel { data: Vec::new(), selected_comment: 0 },
            viewer_scroll: 0,
            multiplier: Vec::new(),
        };
        assert(overview_views(m.overview@) =~= Seq::<OverviewView>::empty());
        assert(thread_views(m.data.data@) =~= Seq::<ThreadView>::empty());
        m
    }

    /// An empty collection of bookmarks.
    pub fn new_bookmarks() -> (m: Model)
        ensures
            m@ == empty_model(),
            m@.wf(),
            m@.distinct(),
            m@.closed(),
    {
        Model::new()
    }

    /// Takes one more digit of the repeat count. What is no digit is passed
    /// over.
    pub fn add_multiplier(&mut self, n: u32)
        ensures
            final(self)@ == (ModelView {
                multiplier: if n <= 9 {
                    old(self)@.multiplier.push(n)
                } else {
                    old(self)@.multiplier
                },
                ..old(self)@
            }),
    {
        if n <= 9 {
            self.multiplier.push(n);
        }
    }

    /// Gives the repeat count that was entered, and forgets it.
    pub fn get_multiplier(&mut self) -> (count: u32)
        ensures
            count == repeat_count(old(self)@.multiplier),
            final(self)@ == (ModelView { multiplier: Seq::empty(), ..old(self)@ }),
    {
        if self.multiplier.len() == 0 {
            assert(self@.multiplier =~= Seq::<u32>::empty());
            return 1;
        }
        let ghost digits = self.multiplier@;
        let mut value: u64 = 0;
        let mut i: usize = 0;
        assert(digits.take(0) =~= Seq::<u32>::empty());
        while i < self.multiplier.len()
            invariant
                i <= self.multiplier.len(),
                digits == self.multiplier@,
                value <= u32::MAX,
                value == least(digits_value(digits.take(i as int)) as int, u32::MAX as int),
            decreases self.multiplier.len() - i,
        {
            assert(digits.take(i + 1).drop_last() =~= digits.take(i as int));
            let next: u64 = value * 10 + self.multiplier[i] as u64;
            value = if next > u32::MAX as u64 {
                u32::MAX as u64
            } else {
                next
            };
            i += 1;
        }
        assert(digits.take(digits.len() as int) =~= digits);
        self.multiplier.clear();
        value as u32
    }

    /// Forgets the repeat count that was entered.
    pub fn clean_multiplier(&mut self)
        ensures
            final(self)@ == (ModelView { multiplier: Seq::empty(), ..old(self)@ }),
    {
        self.multiplier.clear();
    }

    /// Scrolls one line down, as far as the offset can count.
    pub fn scroll_down(&mut self)
        ensures
            final(self)@ == scrolled_down(old(self)@),
            old(self)@.wf() ==> final(self)@.wf(),
            old(self)@.steady() ==> final(self)@.steady(),
    {
        if self.viewer_scroll < u16::MAX {
            self.viewer_scroll += 1;
        }
    }

    /// Scrolls one line up, unless the text is at its top.
    pub fn scroll_up(&mut self)
        ensures
            final(self)@ == scrolled_up(old(self)@),
            old(self)@.wf() ==> final(self)@.wf(),
            old(self)@.steady() ==> final(self)@.steady(),
    {
        if self.viewer_scroll > 0 {
            self.viewer_scroll -= 1;
        }
    }

    /// Selects the thread before the selected one, unless that is the
    /// first.
    pub fn prev_thread(&mut self)
        ensures
            final(self)@ == thread_before(old(self)@),
            old(self)@.wf() ==> final(self)@.wf(),
            old(self)@.steady() ==> final(self)@.steady(),
    {
        if self.selected_thread > 0 {
            self.selected_thread -= 1;
            self.viewer_scroll = 0;
            self.data.selected_comment = 0;
        }
        proof {
            let before = old(self)@;
            let after = self@;
            assert(after.threads == before.threads && after.overview == before.overview
                && after.multiplier == before.multiplier);
            if before.wf() {
                assert(after.wf());
            }
        }
    }

    /// Selects the comment before the selected one, unless that is the
    /// first.
    pub fn prev_comment(&mut self)
        ensures
            final(self)@ == comment_before(old(self)@),
            old(self)@.wf() ==> final(self)@.wf(),
            old(self)@.steady() ==> final(self)@.steady(),
    {
        if self.data.selected_comment > 0 {
            self.data.selected_comment -= 1;
            self.viewer_scroll = 0;
        }
        proof {
            let before = old(self)@;
            let after = self@;
            assert(after.threads == before.threads && after.overview == before.overview
                && after.multiplier == before.multiplier);
            if before.wf() {
                assert(after.wf());
            }
        }
    }
}

/// The collection after scrolling one line down: the offset grows by one,
/// up to the largest offset.
pub open spec fn scrolled_down(m: ModelView) -> ModelView {
    ModelView { viewer_scroll: least(m.viewer_scroll + 1, limit()), ..m }
}

/// The collection after scrolling one line up: the offset shrinks by one,
/// down to 0.
pub open spec fn scrolled_up(m: ModelView) -> ModelView {
    ModelView {
        viewer_scroll: if m.viewer_scroll > 0 {
            m.viewer_scroll - 1
        } else {
            0
        },
        ..m
    }
}

/// The collection after a step to the thread before: nothing changes at the
/// first thread; else the selection moves, and the first comment is shown
/// from its top.
pub open spec fn thread_before(m: ModelView) -> ModelView {
    if m.selected_thread <= 0 {
        m
    } else {
        ModelView {
            selected_thread: m.selected_thread - 1,
            selected_comment: 0,
            viewer_scroll: 0,
            ..m
        }
    }
}

/// The collection after a step to the comment before: nothing changes at
/// the first comment; else the selection moves, and the comment is shown
/// from its top.
pub open spec fn comment_before(m: ModelView) -> ModelView {
    if m.selected_comment <= 0 {
        m
    } else {
        ModelView { selected_comment: m.selected_comment - 1, viewer_scroll: 0, ..m }
    }
}

/// The place of the first summary at or after `from` with the given title;
/// the number of summaries where there is none.
pub open spec fn title_from(overviews: Seq<OverviewView>, title: Seq<char>, from: nat) -> nat
    decreases overviews.len() - from,
{
    if from >= overviews.len() {
        overviews.len()
    } else if overviews[from as int].title == title {
        from
    } else {
        title_from(overviews, title, from + 1)
    }
}

/// The place of the first summary with the given title.
pub open spec fn title_index(overviews: Seq<OverviewView>, title: Seq<char>) -> nat {
    title_from(overviews, title, 0)
}

/// What the first place of a title says of the places before and at it.
pub proof fn lemma_title_from(overviews: Seq<OverviewView>, title: Seq<char>, from: nat)
    requires
        from <= overviews.len(),
    ensures
        from <= title_from(overviews, title, from) <= overviews.len(),
        forall|i: int|
            from <= i < title_from(overviews, title, from) ==> (#[trigger] overviews[i]).title
                != title,
        title_from(overviews, title, from) < overviews.len() ==> overviews[title_from(
            overviews,
            title,
            from,
        ) as int].title == title,
    decreases overviews.len() - from,
{
    if from < overviews.len() && overviews[from as int].title != title {
        lemma_title_from(overviews, title, from + 1);
    }
}

/// The number of summaries among the first `k` with the given title.
pub open spec fn title_count(overviews: Seq<OverviewView>, title: Seq<char>, k: nat) -> nat
    decreases k,
{
    if k == 0 || k > overviews.len() {
        0
    } else if overviews[k - 1].title == title {
        title_count(overviews, title, (k - 1) as nat) + 1
    } else {
        title_count(overviews, title, (k - 1) as nat)
    }
}

/// The collection after a thread was bookmarked: nothing changes where a
/// summary of that title is there already; else the summary and the thread
/// are added at the end.
pub open spec fn bookmarked(m: ModelView, over: OverviewView, data: ThreadView) -> ModelView {
    if title_index(m.overview, over.title) < m.overview.len() {
        m
    } else {
        ModelView { overview: m.overview.push(over), threads: m.threads.push(data), ..m }
    }
}

/// The selection after the summary at place `n` has left a collection in
/// which thread `s` was selected and `left` summaries stay. The selection
/// moves only where the selected summary itself has left: then it goes one
/// thread up, unless it is at the first. Where a summary before the
/// selected one has left and the selection was at the last thread, it goes
/// to the thread that is now the last, so that it stays in the collection.
pub open spec fn selection_after(s: int, n: int, left: int) -> int {
    if n == s {
        if s > 0 {
            s - 1
        } else {
            0
        }
    } else if n < s && s >= left && left > 0 {
        left - 1
    } else {
        s
    }
}

/// The collection after the bookmark of the given title was removed.
/// Nothing changes where there is none. Else the first summary of that
/// title leaves with its thread, and the selection is as
/// [`selection_after`] says. Where a summary after the selected one has
/// left, nothing else changes. Elsewhere another thread has come under the
/// selection: the selected comment and the scroll offset stay where that
/// thread has such a comment, and else its first comment is shown from its
/// top.
pub open spec fn unbookmarked(m: ModelView, title: Seq<char>) -> ModelView {
    let n = title_index(m.overview, title) as int;
    if n >= m.overview.len() {
        m
    } else {
        let overview = m.overview.remove(n);
        let threads = if n < m.threads.len() {
            m.threads.remove(n)
        } else {
            m.threads
        };
        let at = selection_after(m.selected_thread, n, overview.len() as int);
        let stays = n > m.selected_thread || m.selected_comment == 0 || (0 <= at < threads.len()
            && 0 <= m.selected_comment < threads[at].comments.len());
        ModelView {
            overview,
            threads,
            selected_thread: at,
            selected_comment: if stays {
                m.selected_comment
            } else {
                0
            },
            viewer_scroll: if stays {
                m.viewer_scroll
            } else {
                0
            },
            ..m
        }
    }
}

/// A thread that has been opened and of which nothing has been fetched.
pub open spec fn fresh_thread(title: Seq<char>) -> ThreadView {
    ThreadView { title, comments: Seq::empty(), comment_page: 0 }
}

/// Whether thread `i` can be selected: it has a summary, and the threads
/// before it have been opened.
pub open spec fn selectable(m: ModelView, i: int) -> bool {
    0 <= i < m.overview.len() && i <= m.threads.len()
}

/// The collection after thread `i` was selected: the thread is opened if it
/// was not, and its first comment is shown from its top.
pub open spec fn selected(m: ModelView, i: int) -> ModelView {
    ModelView {
        selected_thread: i,
        selected_comment: 0,
        viewer_scroll: 0,
        threads: if i == m.threads.len() {
            m.threads.push(fresh_thread(m.overview[i].title))
        } else {
            m.threads
        },
        ..m
    }
}

/// The collection after one more page of the overview came.
pub open spec fn with_overviews(m: ModelView, page: Seq<OverviewView>) -> ModelView {
    if m.overview_page < limit() {
        ModelView { overview: m.overview + page, overview_page: m.overview_page + 1, ..m }
    } else {
        m
    }
}

/// Whether the selected thread has been opened and can take one more page.
pub open spec fn can_grow(m: ModelView) -> bool {
    0 <= m.selected_thread < m.threads.len() && m.threads[m.selected_thread].comment_page
        < limit()
}

/// The collection after one more page of the selected thread came.
pub open spec fn with_comments(m: ModelView, page: Seq<CommentView>) -> ModelView {
    if can_grow(m) {
        let t = m.threads[m.selected_thread];
        ModelView {
            threads: m.threads.update(
                m.selected_thread,
                ThreadView {
                    title: t.title,
                    comments: t.comments + page,
                    comment_page: t.comment_page + 1,
                },
            ),
            ..m
        }
    } else {
        m
    }
}

/// The collection after the comments of the selected thread were dropped:
/// the thread is as if it had just been opened.
pub open spec fn without_comments(m: ModelView) -> ModelView {
    if 0 <= m.selected_thread < m.threads.len() {
        ModelView {
            threads: m.threads.update(
                m.selected_thread,
                fresh_thread(m.threads[m.selected_thread].title),
            ),
            selected_comment: 0,
            viewer_scroll: 0,
            ..m
        }
    } else {
        m
    }
}

/// The collection with comment `i` of the selected thread shown from its
/// top.
pub open spec fn at_comment(m: ModelView, i: int) -> ModelView {
    ModelView { selected_comment: i, viewer_scroll: 0, ..m }
}

impl Model {
    /// Finds the first summary with the title of `over`.
    pub fn position(&self, over: &ThreadOverview) -> (n: usize)
        ensures
            n == title_index(self@.overview, over@.title),
            n <= self.overview.len(),
            n < self.overview.len() ==> self.overview@[n as int]@.title == over@.title,
    {
        let ghost views = overview_views(self.overview@);
        let mut i: usize = 0;
        while i < self.overview.len()
            invariant
                i <= self.overview.len(),
                views == overview_views(self.overview@),
                title_index(views, over@.title) == title_from(views, over@.title, i as nat),
            decreases self.overview.len() - i,
        {
            assert(views[i as int] == self.overview@[i as int]@);
            if self.overview[i] == *over {
                return i;
            }
            i += 1;
        }
        self.overview.len()
    }

    /// Bookmarks a thread, unless a thread of that title is bookmarked
    /// already. A collection of bookmarks stays one.
    pub fn add_bookmark(&mut self, over: &ThreadOverview, data: &ThreadData)
        ensures
            final(self)@ == bookmarked(old(self)@, over@, data@),
            old(self)@.wf() && old(self)@.closed() && data@.title == over@.title ==> final(self)@.wf()
                && final(self)@.closed(),
            old(self)@.steady() && old(self)@.closed() && data@.title == over@.title
                ==> final(self)@.steady(),
            old(self)@.distinct() ==> final(self)@.distinct(),
    {
        if self.position(over) < self.overview.len() {
            return ;
        }
        proof {
            lemma_title_from(self@.overview, over@.title, 0);
        }
        let ghost o = overview_views(self.overview@);
        let ghost t = thread_views(self.data.data@);
        let over = over.clone();
        let data = data.clone();
        self.overview.push(over);
        self.data.data.push(data);
        proof {
            assert(overview_views(self.overview@) =~= o.push(over@));
            assert(thread_views(self.data.data@) =~= t.push(data@));
        }
    }

    /// Removes the bookmark of a thread, if it has one. A collection of
    /// bookmarks stays one, and the selection stays in it.
    pub fn delete_bookmark(&mut self, over: &ThreadOverview)
        ensures
            final(self)@ == unbookmarked(old(self)@, over@.title),
            old(self)@.wf() && old(self)@.closed() ==> final(self)@.wf(),
            old(self)@.steady() && old(self)@.closed() ==> final(self)@.steady(),
            old(self)@.closed() ==> final(self)@.closed(),
            old(self)@.distinct() ==> final(self)@.distinct(),
    {
        let n = self.position(over);
        if n >= self.overview.len() {
            return ;
        }
        let ghost before = self@;
        let ghost o = overview_views(self.overview@);
        let ghost t = thread_views(self.data.data@);
        let s = self.selected_thread as usize;
        self.overview.remove(n);
        if n < self.data.data.len() {
            self.data.data.remove(n);
        }
        proof {
            assert(overview_views(self.overview@) =~= o.remove(n as int));
            if n < t.len() {
                assert(thread_views(self.data.data@) =~= t.remove(n as int));
            }
        }
        if n <= s {
            let left = self.overview.len();
            if n == s {
                if s > 0 {
                    self.selected_thread -= 1;
                }
            } else if s >= left && left > 0 {
                self.selected_thread = (left - 1) as u16;
            }
            let at = self.selected_thread as usize;
            let stays = self.data.selected_comment == 0 || (at < self.data.data.len() && (
            self.data.selected_comment as usize) < self.data.data[at].comments.len());
            proof {
                if at < self.data.data.len() {
                    assert(self@.threads[at as int] == self.data.data@[at as int]@);
                }
            }
            if !stays {
                self.data.selected_comment = 0;
                self.viewer_scroll = 0;
            }
        }
        proof {
            lemma_unbookmarked(before, over@.title);
        }
    }

    /// Selects thread `i` and opens it if it was not open. Nothing changes
    /// where the thread cannot be selected.
    pub fn select(&mut self, i: u16) -> (done: bool)
        ensures
            done == selectable(old(self)@, i as int),
            done ==> final(self)@ == selected(old(self)@, i as int),
            !done ==> final(self)@ == old(self)@,
            old(self)@.wf() ==> final(self)@.wf(),
    {
        let at = i as usize;
        if at >= self.overview.len() || at > self.data.data.len() {
            return false;
        }
        let ghost o = overview_views(self.overview@);
        let ghost t = thread_views(self.data.data@);
        if at == self.data.data.len() {
            let thread = ThreadData {
                title: self.overview[at].title.clone(),
                comments: Vec::new(),
                comment_page: 0,
            };
            proof {
                assert(o[at as int] == self.overview@[at as int]@);
                assert(comment_views(thread.comments@) =~= Seq::<CommentView>::empty());
            }
            self.data.data.push(thread);
            proof {
                assert(thread_views(self.data.data@) =~= t.push(thread@));
            }
        }
        self.selected_thread = i;
        self.data.selected_comment = 0;
        self.viewer_scroll = 0;
        proof {
            if old(self)@.wf() {
                let now = self@;
                assert forall|k: int| 0 <= k < now.threads.len() implies (#[trigger] now.threads[k]).title
                    == now.overview[k].title by {
                    if k < t.len() {
                        assert(t[k].title == o[k].title);
                    }
                }
                assert(now.multiplier == old(self)@.multiplier);
                assert(now.wf());
            }
        }
        true
    }

    /// Takes one more page of the overview.
    pub fn add_overviews(&mut self, page: Vec<ThreadOverview>)
        ensures
            final(self)@ == with_overviews(old(self)@, overview_views(page@)),
            old(self)@.wf() ==> final(self)@.wf(),
            kept(old(self)@, final(self)@),
    {
        if self.overview_page < u16::MAX {
            let ghost o = overview_views(self.overview@);
            let ghost more = overview_views(page@);
            let mut page = page;
            self.overview.append(&mut page);
            self.overview_page += 1;
            proof {
                assert(overview_views(self.overview@) =~= o + more);
            }
        }
    }

    /// Takes one more page of the selected thread.
    pub fn add_comments(&mut self, page: Vec<ThreadComment>)
        ensures
            final(self)@ == with_comments(old(self)@, comment_views(page@)),
            old(self)@.wf() ==> final(self)@.wf(),
    {
        let at = self.selected_thread as usize;
        if at < self.data.data.len() && self.data.data[at].comment_page < u16::MAX {
            let ghost t = thread_views(self.data.data@);
            let ghost c = comment_views(self.data.data@[at as int].comments@);
            let ghost more = comment_views(page@);
            let mut page = page;
            let thread = &mut self.data.data[at];
            thread.comments.append(&mut page);
            thread.comment_page += 1;
            proof {
                assert(t[at as int] == old(self).data.data@[at as int]@);
                assert(comment_views(self.data.data@[at as int].comments@) =~= c + more);
                assert(thread_views(self.data.data@) =~= t.update(
                    at as int,
                    self.data.data@[at as int]@,
                ));
            }
        }
    }

    /// Drops the comments of the selected thread.
    pub fn drop_comments(&mut self)
        ensures
            final(self)@ == without_comments(old(self)@),
            old(self)@.wf() ==> final(self)@.wf(),
    {
        let at = self.selected_thread as usize;
        if at < self.data.data.len() {
            let ghost t = thread_views(self.data.data@);
            let thread = &mut self.data.data[at];
            thread.comments.clear();
            thread.comment_page = 0;
            self.data.selected_comment = 0;
            self.viewer_scroll = 0;
            proof {
                assert(t[at as int] == old(self).data.data@[at as int]@);
                assert(comment_views(self.data.data@[at as int].comments@) =~= Seq::<
                    CommentView,
                >::empty());
                assert(thread_views(self.data.data@) =~= t.update(
                    at as int,
                    self.data.data@[at as int]@,
                ));
            }
        }
    }

    /// Shows comment `i` of the selected thread from its top.
    pub fn show_comment(&mut self, i: u16)
        ensures
            final(self)@ == at_comment(old(self)@, i as int),
    {
        self.data.selected_comment = i;
        self.viewer_scroll = 0;
    }
}

/// Whether the page that `wait` waits for can be asked for: its number can
/// be counted, and for a page of comments, the selected thread is open.
pub open spec fn askable(m: ModelView, wait: Wait) -> bool {
    match wait {
        Wait::Threads { .. } => 0 <= m.overview_page < limit(),
        Wait::Comments { .. } => opened(m) && 0 <= m.threads[m.selected_thread].comment_page
            < limit(),
    }
}

/// Whether `after` has kept what `before` had fetched of the overview: the
/// summaries of `before` are the first summaries of `after`, and no page
/// number has gone back.
pub open spec fn kept(before: ModelView, after: ModelView) -> bool {
    &&& before.overview.len() <= after.overview.len()
    &&& forall|i: int|
        0 <= i < before.overview.len() ==> #[trigger] after.overview[i] == before.overview[i]
    &&& before.overview_page <= after.overview_page
}

/// Whether thread `target` is the next to be fetched and opened: it has no
/// summary yet, and the threads before it have been opened.
pub open spec fn next_in_line(m: ModelView, target: int) -> bool {
    m.overview.len() <= target <= m.threads.len()
}

/// Whether a step ended without losing its way: it was not given up for a
/// selection that points nowhere, and where it waits for a page of the
/// overview, the thread that it hopes to reach is the next in line.
pub open spec fn on_course(m: ModelView, out: Outcome) -> bool {
    &&& out != Outcome::Failed(NavError::NotFound)
    &&& out matches Outcome::Ask(Wait::Threads { target }) ==> next_in_line(m, target as int)
}

/// Whether a thread is selected that has been opened.
pub open spec fn opened(m: ModelView) -> bool {
    0 <= m.selected_thread < m.threads.len() && m.selected_thread < m.overview.len()
}

/// The end of a search for a comment that no further page can reach: the
/// last comment is shown; a thread without comments is an empty page.
pub open spec fn comments_exhausted(m: ModelView) -> (ModelView, Outcome) {
    if !opened(m) {
        (m, Outcome::Failed(NavError::NotFound))
    } else {
        let count = m.threads[m.selected_thread].comments.len();
        if count == 0 {
            (at_comment(m, 0), Outcome::Failed(NavError::Fetch(FetchError::EmptyPage)))
        } else {
            (at_comment(m, least(count - 1, limit())), Outcome::Finished)
        }
    }
}

/// The search for comment `target` of the selected thread. Where the
/// comment has been fetched, it is shown, and nothing is asked for. Else the
/// thread's next page is asked for, as long as pages can be counted.
/// Nothing happens in an empty collection.
pub open spec fn seek_comments(m: ModelView, target: int) -> (ModelView, Outcome) {
    if m.overview.len() == 0 {
        (m, Outcome::Finished)
    } else if !opened(m) {
        (m, Outcome::Failed(NavError::NotFound))
    } else {
        let t = m.threads[m.selected_thread];
        if 0 <= target < t.comments.len() {
            (at_comment(m, target), Outcome::Finished)
        } else if t.comment_page < limit() && 0 <= target <= limit() {
            (m, Outcome::Ask(Wait::Comments { target: target as u16 }))
        } else {
            comments_exhausted(m)
        }
    }
}

/// The move to thread `i`: the thread is selected, and its first comment
/// is searched for.
pub open spec fn enter_thread(m: ModelView, i: int) -> (ModelView, Outcome) {
    if selectable(m, i) && i <= limit() {
        seek_comments(selected(m, i), 0)
    } else {
        (m, Outcome::Failed(NavError::NotFound))
    }
}

/// The end of a search for a thread that no further page can reach: the
/// last thread is entered; a collection without threads is an empty page.
pub open spec fn threads_exhausted(m: ModelView) -> (ModelView, Outcome) {
    if m.overview.len() == 0 {
        (m, Outcome::Failed(NavError::Fetch(FetchError::EmptyPage)))
    } else {
        enter_thread(m, least(m.overview.len() - 1, limit()))
    }
}

/// The search for thread `target` in a collection that grows. Where the
/// thread's summary has been fetched, the thread is entered, and no page of
/// the overview is asked for. Else the next page of the overview is asked
/// for, as long as pages can be counted.
pub open spec fn seek_thread(m: ModelView, target: int) -> (ModelView, Outcome) {
    if 0 <= target < m.overview.len() {
        enter_thread(m, target)
    } else if m.overview_page < limit() && 0 <= target <= limit() {
        (m, Outcome::Ask(Wait::Threads { target: target as u16 }))
    } else {
        threads_exhausted(m)
    }
}

/// The thread that a step forward goes to: the first in an empty
/// collection, else the one after the selected thread.
pub open spec fn thread_after(m: ModelView) -> int {
    if m.overview.len() == 0 {
        0
    } else {
        least(m.selected_thread + 1, limit())
    }
}

/// A step to the next thread. The home collection grows to reach it; the
/// bookmarks do not, and the step ends at their last thread. Nothing
/// happens in an empty collection of bookmarks.
pub open spec fn next_thread(m: ModelView, tab: TabState) -> (ModelView, Outcome) {
    match tab {
        TabState::Home => seek_thread(m, thread_after(m)),
        TabState::Bookmarks => if m.overview.len() == 0 {
            (m, Outcome::Finished)
        } else {
            enter_thread(m, least(thread_after(m), least(m.overview.len() - 1, limit())))
        },
    }
}

/// A step to the next comment of the selected thread.
pub open spec fn next_comment(m: ModelView) -> (ModelView, Outcome) {
    seek_comments(m, least(m.selected_comment + 1, limit()))
}

/// Dropping the comments of the selected thread and fetching its first
/// page afresh.
pub open spec fn clean_comments(m: ModelView) -> (ModelView, Outcome) {
    if m.overview.len() == 0 {
        (m, Outcome::Finished)
    } else if !opened(m) {
        (m, Outcome::Failed(NavError::NotFound))
    } else {
        seek_comments(without_comments(m), 0)
    }
}

/// What a page of the overview that has come does to the search for
/// thread `target`: the page is added; an empty page ends the search, any
/// other lets it go on.
pub open spec fn threads_came(m: ModelView, target: int, page: Seq<OverviewView>) -> (
    ModelView,
    Outcome,
) {
    let grown = with_overviews(m, page);
    if page.len() == 0 {
        threads_exhausted(grown)
    } else {
        seek_thread(grown, target)
    }
}

/// What a page of the selected thread that has come does to the search for
/// comment `target`: the page is added; an empty page ends the search, any
/// other lets it go on.
pub open spec fn comments_came(m: ModelView, target: int, page: Seq<CommentView>) -> (
    ModelView,
    Outcome,
) {
    let grown = with_comments(m, page);
    if page.len() == 0 {
        comments_exhausted(grown)
    } else {
        seek_comments(grown, target)
    }
}

impl Model {
    /// Whether a thread is selected that has been opened.
    pub fn is_opened(&self) -> (r: bool)
        ensures
            r == opened(self@),
    {
        (self.selected_thread as usize) < self.data.data.len() && (self.selected_thread as usize)
            < self.overview.len()
    }

    /// Ends a search for a comment that no further page can reach.
    pub fn end_comments(&mut self) -> (out: Outcome)
        ensures
            (final(self)@, out) == comments_exhausted(old(self)@),
            old(self)@.steady() && opened(old(self)@) ==> final(self)@.steady() && on_course(
                final(self)@,
                out,
            ),
            old(self)@.wf() ==> final(self)@.wf(),
            out matches Outcome::Ask(w) ==> askable(final(self)@, w),
            kept(old(self)@, final(self)@),
    {
        if !self.is_opened() {
            return Outcome::Failed(NavError::NotFound);
        }
        assert(self@.threads[self@.selected_thread] == self.data.data@[self.selected_thread as int]@);
        let count = self.data.data[self.selected_thread as usize].comments.len();
        if count == 0 {
            self.show_comment(0);
            Outcome::Failed(NavError::Fetch(FetchError::EmptyPage))
        } else {
            let last: u16 = if count - 1 > u16::MAX as usize {
                u16::MAX
            } else {
                (count - 1) as u16
            };
            self.show_comment(last);
            Outcome::Finished
        }
    }

    /// Searches for comment `target` of the selected thread.
    pub fn ensure_comment_covered(&mut self, target: u16) -> (out: Outcome)
        ensures
            (final(self)@, out) == seek_comments(old(self)@, target as int),
            old(self)@.steady() ==> final(self)@.steady() && on_course(final(self)@, out),
            old(self)@.wf() ==> final(self)@.wf(),
            out matches Outcome::Ask(w) ==> askable(final(self)@, w),
            kept(old(self)@, final(self)@),
    {
        if self.overview.len() == 0 {
            return Outcome::Finished;
        }
        if !self.is_opened() {
            return Outcome::Failed(NavError::NotFound);
        }
        assert(self@.threads[self@.selected_thread] == self.data.data@[self.selected_thread as int]@);
        let thread = &self.data.data[self.selected_thread as usize];
        if (target as usize) < thread.comments.len() {
            self.show_comment(target);
            Outcome::Finished
        } else if thread.comment_page < u16::MAX {
            Outcome::Ask(Wait::Comments { target })
        } else {
            self.end_comments()
        }
    }

    /// Moves to thread `i`.
    pub fn enter(&mut self, i: u16) -> (out: Outcome)
        ensures
            (final(self)@, out) == enter_thread(old(self)@, i as int),
            old(self)@.wf() && selectable(old(self)@, i as int) ==> final(self)@.steady() && on_course(
                final(self)@,
                out,
            ),
            old(self)@.wf() ==> final(self)@.wf(),
            out matches Outcome::Ask(w) ==> askable(final(self)@, w),
            kept(old(self)@, final(self)@),
    {
        if self.select(i) {
            self.ensure_comment_covered(0)
        } else {
            Outcome::Failed(NavError::NotFound)
        }
    }

    /// The place of the last summary, as far as a selection can count.
    fn last_thread(&self) -> (i: u16)
        requires
            self.overview.len() > 0,
        ensures
            i == least(self@.overview.len() - 1, limit()),
    {
        let n = self.overview.len() - 1;
        if n > u16::MAX as usize {
            u16::MAX
        } else {
            n as u16
        }
    }

    /// Ends a search for a thread that no further page can reach.
    pub fn end_threads(&mut self) -> (out: Outcome)
        ensures
            (final(self)@, out) == threads_exhausted(old(self)@),
            old(self)@.steady() && old(self)@.threads.len() == old(self)@.overview.len()
                ==> final(self)@.steady() && on_course(final(self)@, out),
            old(self)@.wf() ==> final(self)@.wf(),
            out matches Outcome::Ask(w) ==> askable(final(self)@, w),
            kept(old(self)@, final(self)@),
    {
        if self.overview.len() == 0 {
            Outcome::Failed(NavError::Fetch(FetchError::EmptyPage))
        } else {
            let last = self.last_thread();
            self.enter(last)
        }
    }

    /// Searches for thread `target` in a collection that grows.
    pub fn ensure_thread_covered(&mut self, target: u16) -> (out: Outcome)
        ensures
            (final(self)@, out) == seek_thread(old(self)@, target as int),
            old(self)@.steady() && target <= old(self)@.threads.len() ==> final(self)@.steady()
                && on_course(final(self)@, out),
            old(self)@.wf() ==> final(self)@.wf(),
            out matches Outcome::Ask(w) ==> askable(final(self)@, w),
            kept(old(self)@, final(self)@),
    {
        if (target as usize) < self.overview.len() {
            self.enter(target)
        } else if self.overview_page < u16::MAX {
            Outcome::Ask(Wait::Threads { target })
        } else {
            self.end_threads()
        }
    }

    /// The thread that a step forward goes to.
    fn after_selected(&self) -> (i: u16)
        ensures
            i == thread_after(self@),
    {
        if self.overview.len() == 0 {
            0
        } else if self.selected_thread < u16::MAX {
            self.selected_thread + 1
        } else {
            u16::MAX
        }
    }

    /// Steps to the next thread.
    pub fn next_thread(&mut self, tab: &TabState) -> (out: Outcome)
        ensures
            (final(self)@, out) == next_thread(old(self)@, *tab),
            old(self)@.steady() && (*tab == TabState::Bookmarks ==> old(self)@.closed())
                ==> final(self)@.steady() && on_course(final(self)@, out),
            old(self)@.wf() ==> final(self)@.wf(),
            out matches Outcome::Ask(w) ==> askable(final(self)@, w),
            kept(old(self)@, final(self)@),
    {
        let target = self.after_selected();
        match tab {
            TabState::Home => self.ensure_thread_covered(target),
            TabState::Bookmarks => {
                if self.overview.len() == 0 {
                    Outcome::Finished
                } else {
                    let last = self.last_thread();
                    let to = if target <= last {
                        target
                    } else {
                        last
                    };
                    self.enter(to)
                }
            },
        }
    }

    /// Steps to the next comment of the selected thread.
    pub fn next_comment(&mut self) -> (out: Outcome)
        ensures
            (final(self)@, out) == next_comment(old(self)@),
            old(self)@.steady() ==> final(self)@.steady() && on_course(final(self)@, out),
            old(self)@.wf() ==> final(self)@.wf(),
            out matches Outcome::Ask(w) ==> askable(final(self)@, w),
            kept(old(self)@, final(self)@),
    {
        let target = if self.data.selected_comment < u16::MAX {
            self.data.selected_comment + 1
        } else {
            u16::MAX
        };
        self.ensure_comment_covered(target)
    }

    /// Drops the comments of the selected thread and searches for its
    /// first comment afresh.
    pub fn clean_comments(&mut self) -> (out: Outcome)
        ensures
            (final(self)@, out) == clean_comments(old(self)@),
            old(self)@.steady() ==> final(self)@.steady() && on_course(final(self)@, out),
            old(self)@.wf() ==> final(self)@.wf(),
            out matches Outcome::Ask(w) ==> askable(final(self)@, w),
            kept(old(self)@, final(self)@),
    {
        if self.overview.len() == 0 {
            return Outcome::Finished;
        }
        if !self.is_opened() {
            return Outcome::Failed(NavError::NotFound);
        }
        self.drop_comments();
        self.ensure_comment_covered(0)
    }

    /// Takes a page of the overview that has come, and goes on with the
    /// search for thread `target`.
    pub fn threads_came(&mut self, target: u16, page: Vec<ThreadOverview>) -> (out: Outcome)
        ensures
            (final(self)@, out) == threads_came(old(self)@, target as int, overview_views(page@)),
            old(self)@.steady() && next_in_line(old(self)@, target as int) ==> final(self)@.steady()
                && on_course(final(self)@, out),
            old(self)@.wf() ==> final(self)@.wf(),
            out matches Outcome::Ask(w) ==> askable(final(self)@, w),
            kept(old(self)@, final(self)@),
    {
        let none = page.len() == 0;
        self.add_overviews(page);
        if none {
            self.end_threads()
        } else {
            self.ensure_thread_covered(target)
        }
    }

    /// Takes a page of the selected thread that has come, and goes on with
    /// the search for comment `target`.
    pub fn comments_came(&mut self, target: u16, page: Vec<ThreadComment>) -> (out: Outcome)
        ensures
            (final(self)@, out) == comments_came(old(self)@, target as int, comment_views(page@)),
            old(self)@.steady() && opened(old(self)@) ==> final(self)@.steady() && on_course(
                final(self)@,
                out,
            ),
            old(self)@.wf() ==> final(self)@.wf(),
            out matches Outcome::Ask(w) ==> askable(final(self)@, w),
            kept(old(self)@, final(self)@),
    {
        let none = page.len() == 0;
        self.add_comments(page);
        if none {
            self.end_comments()
        } else {
            self.ensure_comment_covered(target)
        }
    }
}

impl Model {
    /// Whether each opened thread goes with the summary at its place.
    fn titles_agree(&self) -> (ok: bool)
        requires
            self.data.data.len() <= self.overview.len(),
        ensures
            ok == forall|i: int|
                0 <= i < self@.threads.len() ==> (#[trigger] self@.threads[i]).title
                    == self@.overview[i].title,
    {
        let ghost m = self@;
        let mut i: usize = 0;
        while i < self.data.data.len()
            invariant
                i <= self.data.data.len() <= self.overview.len(),
                m == self@,
                forall|k: int| 0 <= k < i ==> (#[trigger] m.threads[k]).title == m.overview[k].title,
            decreases self.data.data.len() - i,
        {
            assert(m.threads[i as int] == self.data.data@[i as int]@);
            assert(m.overview[i as int] == self.overview@[i as int]@);
            if self.data.data[i].title != self.overview[i].title {
                return false;
            }
            i += 1;
        }
        true
    }

    /// Whether the repeat count is made of digits.
    fn digits_only(&self) -> (ok: bool)
        ensures
            ok == forall|i: int|
                0 <= i < self@.multiplier.len() ==> #[trigger] self@.multiplier[i] <= 9,
    {
        let mut i: usize = 0;
        while i < self.multiplier.len()
            invariant
                i <= self.multiplier.len(),
                forall|k: int| 0 <= k < i ==> #[trigger] self.multiplier@[k] <= 9,
            decreases self.multiplier.len() - i,
        {
            if self.multiplier[i] > 9 {
                assert(self@.multiplier[i as int] > 9);
                return false;
            }
            i += 1;
        }
        true
    }

    /// Whether the collection is in order.
    pub fn is_well_formed(&self) -> (ok: bool)
        ensures
            ok == self@.wf(),
    {
        if self.data.data.len() > self.overview.len() {
            return false;
        }
        let at = self.selected_thread as usize;
        if at > self.data.data.len() || (self.overview.len() > 0 && at >= self.overview.len()) {
            return false;
        }
        if self.data.selected_comment != 0 {
            if at >= self.data.data.len() {
                return false;
            }
            assert(self@.threads[at as int] == self.data.data@[at as int]@);
            if self.data.selected_comment as usize >= self.data.data[at].comments.len() {
                return false;
            }
        }
        self.titles_agree() && self.digits_only()
    }

    /// Whether the collection is in order and the selected thread, where
    /// there is one, has been opened.
    pub fn is_steady(&self) -> (ok: bool)
        ensures
            ok == self@.steady(),
    {
        self.is_well_formed() && (self.overview.len() == 0 || (self.selected_thread as usize)
            < self.data.data.len())
    }

    /// Whether every summary has its thread.
    pub fn is_closed(&self) -> (ok: bool)
        ensures
            ok == self@.closed(),
    {
        self.data.data.len() == self.overview.len()
    }

    /// Whether no two summaries have the same title.
    pub fn is_distinct(&self) -> (ok: bool)
        ensures
            ok == self@.distinct(),
    {
        let ghost o = self@.overview;
        let mut j: usize = 0;
        while j < self.overview.len()
            invariant
                j <= self.overview.len(),
                o == self@.overview,
                forall|a: int, b: int|
                    0 <= a < b < j ==> (#[trigger] o[a]).title != (#[trigger] o[b]).title,
            decreases self.overview.len() - j,
        {
            let mut i: usize = 0;
            while i < j
                invariant
                    i <= j < self.overview.len(),
                    o == self@.overview,
                    forall|a: int| 0 <= a < i ==> (#[trigger] o[a]).title != o[j as int].title,
                decreases j - i,
            {
                assert(o[i as int] == self.overview@[i as int]@);
                assert(o[j as int] == self.overview@[j as int]@);
                if self.overview[i] == self.overview[j] {
                    return false;
                }
                i += 1;
            }
            j += 1;
        }
        true
    }
}

/// A thread whose summary has been fetched is searched for without a page
/// of the overview: none is asked for, and the overview stays as it is.
pub proof fn lemma_covered_thread_asks_no_overview(m: ModelView, target: int)
    requires
        0 <= target < m.overview.len(),
    ensures
        !(seek_thread(m, target).1 matches Outcome::Ask(Wait::Threads { .. })),
        seek_thread(m, target).0.overview == m.overview,
        seek_thread(m, target).0.overview_page == m.overview_page,
{
}

/// A search for a thread that has finished is idempotent: made again on
/// what it left, it asks for no page and changes nothing.
pub proof fn lemma_thread_search_idempotent(m: ModelView, target: int)
    requires
        seek_thread(m, target).1 == Outcome::Finished,
    ensures
        seek_thread(seek_thread(m, target).0, target) == (
            seek_thread(m, target).0,
            Outcome::Finished,
        ),
{
    let m1 = seek_thread(m, target).0;
    let at = if 0 <= target < m.overview.len() {
        target
    } else {
        least(m.overview.len() - 1, limit())
    };
    assert(seek_thread(m, target) == enter_thread(m, at));
    let chosen = selected(m, at);
    assert(m1 == at_comment(chosen, 0));
    assert(selected(m1, at) == m1);
    assert(seek_thread(m1, target) == enter_thread(m1, at));
}

/// Once a page of the overview has reached a thread and the search for it
/// has finished, the search asks for no page when it is made again, and
/// changes nothing: the page is fetched once.
pub proof fn lemma_thread_search_after_page(m: ModelView, target: int, page: Seq<OverviewView>)
    requires
        threads_came(m, target, page).1 == Outcome::Finished,
        m.overview.len() <= target < threads_came(m, target, page).0.overview.len(),
    ensures
        seek_thread(threads_came(m, target, page).0, target) == (
            threads_came(m, target, page).0,
            Outcome::Finished,
        ),
{
    let grown = with_overviews(m, page);
    let m1 = threads_came(m, target, page).0;
    assert(m1.overview == grown.overview);
    assert(page.len() > 0);
    assert(threads_came(m, target, page) == seek_thread(grown, target));
    lemma_thread_search_idempotent(grown, target);
}

/// A comment that has been fetched is searched for without a page: none is
/// asked for, and what has been fetched stays as it is.
pub proof fn lemma_covered_comment_asks_nothing(m: ModelView, target: int)
    requires
        opened(m),
        0 <= target < m.threads[m.selected_thread].comments.len(),
    ensures
        seek_comments(m, target) == (at_comment(m, target), Outcome::Finished),
        seek_comments(m, target).0.threads == m.threads,
        seek_comments(m, target).0.overview == m.overview,
{
}

/// Bookmarking a thread twice is bookmarking it once.
pub proof fn lemma_bookmark_twice(m: ModelView, over: OverviewView, data: ThreadView)
    ensures
        bookmarked(bookmarked(m, over, data), over, data) == bookmarked(m, over, data),
{
    let once = bookmarked(m, over, data);
    lemma_title_from(m.overview, over.title, 0);
    if title_index(m.overview, over.title) >= m.overview.len() {
        lemma_title_from(once.overview, over.title, 0);
        assert(once.overview[m.overview.len() as int].title == over.title);
    }
}

/// A title that stands at one place at least is counted once at least, and
/// in summaries without a title twice it is counted once at most.
pub proof fn lemma_title_count(overviews: Seq<OverviewView>, title: Seq<char>, k: nat)
    requires
        k <= overviews.len(),
    ensures
        (exists|i: int| 0 <= i < k && (#[trigger] overviews[i]).title == title) ==> title_count(
            overviews,
            title,
            k,
        ) >= 1,
        (forall|i: int, j: int|
            0 <= i < j < k ==> (#[trigger] overviews[i]).title != (#[trigger] overviews[j]).title)
            ==> title_count(overviews, title, k) <= 1,
        (forall|i: int| 0 <= i < k ==> (#[trigger] overviews[i]).title != title) ==> title_count(
            overviews,
            title,
            k,
        ) == 0,
    decreases k,
{
    if k > 0 {
        lemma_title_count(overviews, title, (k - 1) as nat);
        if exists|i: int| 0 <= i < k && (#[trigger] overviews[i]).title == title {
            let i = choose|i: int| 0 <= i < k && (#[trigger] overviews[i]).title == title;
            if i < k - 1 {
                assert(title_count(overviews, title, (k - 1) as nat) >= 1);
            }
        }
        if forall|i: int, j: int|
            0 <= i < j < k ==> (#[trigger] overviews[i]).title != (#[trigger] overviews[j]).title {
            if overviews[k - 1].title == title {
                assert forall|i: int| 0 <= i < k - 1 implies (#[trigger] overviews[i]).title
                    != title by {
                    assert(overviews[i].title != overviews[k - 1].title);
                }
            }
        }
    }
}

/// After a thread was bookmarked, the bookmarks hold its title exactly
/// once, however often it was bookmarked before, and still hold no title
/// twice.
pub proof fn lemma_bookmark_once(m: ModelView, over: OverviewView, data: ThreadView)
    requires
        m.distinct(),
    ensures
        bookmarked(m, over, data).distinct(),
        title_count(
            bookmarked(m, over, data).overview,
            over.title,
            bookmarked(m, over, data).overview.len(),
        ) == 1,
{
    let once = bookmarked(m, over, data);
    lemma_title_from(m.overview, over.title, 0);
    let at = if title_index(m.overview, over.title) < m.overview.len() {
        title_index(m.overview, over.title) as int
    } else {
        m.overview.len() as int
    };
    assert(0 <= at < once.overview.len() && once.overview[at].title == over.title);
    assert(once.distinct());
    lemma_title_count(once.overview, over.title, once.overview.len());
}

/// Removing a bookmark keeps what a collection is made of: it stays in
/// order where it has a thread for each summary, it still has a thread for
/// each summary, and it still holds no title twice. So the selection stays
/// in the collection, whichever bookmark has left.
pub proof fn lemma_unbookmarked(m: ModelView, title: Seq<char>)
    ensures
        m.wf() && m.closed() ==> unbookmarked(m, title).wf(),
        m.steady() && m.closed() ==> unbookmarked(m, title).steady(),
        m.closed() ==> unbookmarked(m, title).closed(),
        m.distinct() ==> unbookmarked(m, title).distinct(),
{
    let after = unbookmarked(m, title);
    lemma_title_from(m.overview, title, 0);
    let n = title_index(m.overview, title) as int;
    if n < m.overview.len() {
        if m.distinct() {
            assert forall|i: int, j: int| 0 <= i < j < after.overview.len() implies (
            #[trigger] after.overview[i]).title != (#[trigger] after.overview[j]).title by {
                let a = if i < n {
                    i
                } else {
                    i + 1
                };
                let b = if j < n {
                    j
                } else {
                    j + 1
                };
                assert(m.overview[a].title != m.overview[b].title);
            }
        }
        if m.wf() && m.closed() {
            assert forall|i: int| 0 <= i < after.threads.len() implies (
            #[trigger] after.threads[i]).title == after.overview[i].title by {
                let a = if i < n {
                    i
                } else {
                    i + 1
                };
                assert(m.threads[a].title == m.overview[a].title);
            }
            assert(after.multiplier == m.multiplier);
            if n > m.selected_thread {
                assert(after.threads[m.selected_thread] == m.threads[m.selected_thread]);
            }
            assert(after.wf());
        }
    }
}

/// Removing a bookmark after the selected one leaves the selection, the
/// selected thread, the selected comment and the scroll offset as they
/// are.
pub proof fn lemma_remove_after_selected(m: ModelView, title: Seq<char>)
    requires
        0 <= m.selected_thread < title_index(m.overview, title) < m.overview.len(),
    ensures
        ({
            let after = unbookmarked(m, title);
            &&& after.selected_thread == m.selected_thread
            &&& after.selected_comment == m.selected_comment
            &&& after.viewer_scroll == m.viewer_scroll
            &&& after.overview[m.selected_thread] == m.overview[m.selected_thread]
            &&& m.selected_thread < m.threads.len() ==> after.threads[m.selected_thread]
                == m.threads[m.selected_thread]
        }),
{
}

/// Removing a bookmark before the selected one leaves the selection where
/// it is, unless it was at the last thread: then it goes to the thread that
/// is now the last.
pub proof fn lemma_remove_before_selected(m: ModelView, title: Seq<char>)
    requires
        0 <= title_index(m.overview, title) < m.selected_thread < m.overview.len(),
    ensures
        ({
            let after = unbookmarked(m, title);
            &&& after.selected_thread == if m.selected_thread < m.overview.len() - 1 {
                m.selected_thread
            } else {
                m.selected_thread - 1
            }
            &&& 0 <= after.selected_thread < after.overview.len()
        }),
{
}

/// Removing the bookmark that is selected, where it is the last, takes the
/// last summary away and moves the selection one thread up, unless it is
/// at the first: the selection stays in the collection, which stays in
/// order.
pub proof fn lemma_remove_selected_last(m: ModelView)
    requires
        m.wf(),
        m.closed(),
        m.distinct(),
        m.overview.len() >= 1,
        m.selected_thread == m.overview.len() - 1,
    ensures
        ({
            let after = unbookmarked(m, m.overview[m.selected_thread].title);
            &&& after.overview == m.overview.drop_last()
            &&& after.threads == m.threads.drop_last()
            &&& after.selected_thread == if m.selected_thread > 0 {
                m.selected_thread - 1
            } else {
                0
            }
            &&& after.overview.len() > 0 ==> after.selected_thread < after.overview.len()
            &&& after.wf()
            &&& after.closed()
            &&& after.distinct()
        }),
{
    let title = m.overview[m.selected_thread].title;
    let last = m.overview.len() - 1;
    lemma_title_from(m.overview, title, 0);
    let n = title_index(m.overview, title) as int;
    if n < last {
        assert(m.overview[n].title != m.overview[last].title);
    }
    assert(n == last);
    assert(m.overview.remove(last) =~= m.overview.drop_last());
    assert(m.threads.remove(last) =~= m.threads.drop_last());
    lemma_unbookmarked(m, title);
}

} // verus!
