//! The controller: what an action does to the two collections.
//!
//! An action may need pages that have not been fetched. The controller does
//! not fetch. It carries an action as far as it goes without a page, says
//! which page it needs, and goes on when the page is handed in. Whoever
//! drives it calls [`update`] for an action and, for as long as the answer
//! asks for a page, fetches that page and calls [`deliver`].

use crate::api::{get_comments, get_threads, overview_address, overview_url, page_comments,
    page_overviews, thread_address, thread_url};
use crate::error::{FetchError, NavError};
use crate::model::{askable, bookmarked, clean_comments, comment_before, comments_came,
    empty_model, kept, next_in_line, on_course,
    next_comment, next_thread, opened, repeat_count, scrolled_down, scrolled_up, thread_before,
    threads_came, unbookmarked, Action, Model, ModelView, Outcome, TabState, Wait};
use crate::overview::{overview_views, OverviewView, ThreadOverview};
use crate::thread::{comment_views, CommentView, ThreadComment};
use crate::xml::xml_tokens;
use vstd::prelude::*;

verus! {

/// What the controller is in the middle of.
#[derive(Clone, Copy, Debug, PartialEq, Eq, Structural)]
pub enum Job {
    /// Nothing: the next action can come.
    Idle,
    /// An action that waits for a page. `left` counts the times that the
    /// action has still to be carried out, the time that waits included.
    Running { action: Action, left: u32, wait: Wait },
}

/// The two collections, the one that is shown, and the action that is under
/// way.
pub struct Browser {
    pub home: Model,
    pub bookmarks: Model,
    pub tab: TabState,
    pub job: Job,
}

/// The mathematical value of a [`Browser`].
pub struct BrowserView {
    pub home: ModelView,
    pub bookmarks: ModelView,
    pub tab: TabState,
    pub job: Job,
}

impl View for Browser {
    type V = BrowserView;

    open spec fn view(&self) -> BrowserView {
        BrowserView { home: self.home@, bookmarks: self.bookmarks@, tab: self.tab, job: self.job }
    }
}

/// What the controller answers.
#[derive(Debug)]
pub enum Effect {
    /// The action is done.
    Done,
    /// The reader wants to leave.
    Quit,
    /// The page of the overview at `url` is needed.
    FetchOverview { url: String },
    /// The page of a thread at `url` is needed.
    FetchThread { url: String },
    /// The action was given up.
    Failed(NavError),
}

/// The mathematical value of an [`Effect`].
pub enum EffectView {
    Done,
    Quit,
    FetchOverview { url: Seq<char> },
    FetchThread { url: Seq<char> },
    Failed(NavError),
}

impl View for Effect {
    type V = EffectView;

    open spec fn view(&self) -> EffectView {
        match self {
            Effect::Done => EffectView::Done,
            Effect::Quit => EffectView::Quit,
            Effect::FetchOverview { url } => EffectView::FetchOverview { url: url@ },
            Effect::FetchThread { url } => EffectView::FetchThread { url: url@ },
            Effect::Failed(e) => EffectView::Failed(*e),
        }
    }
}

/// A page that is handed in: its records, or why it could not be had.
pub enum Page {
    Overviews(Vec<ThreadOverview>),
    Comments(Vec<ThreadComment>),
    Failed(FetchError),
}

/// The mathematical value of a [`Page`].
pub enum PageView {
    Overviews(Seq<OverviewView>),
    Comments(Seq<CommentView>),
    Failed(FetchError),
}

impl View for Page {
    type V = PageView;

    open spec fn view(&self) -> PageView {
        match self {
            Page::Overviews(v) => PageView::Overviews(overview_views(v@)),
            Page::Comments(v) => PageView::Comments(comment_views(v@)),
            Page::Failed(e) => PageView::Failed(*e),
        }
    }
}

impl BrowserView {
    /// The collection that is shown.
    pub open spec fn active(self) -> ModelView {
        match self.tab {
            TabState::Home => self.home,
            TabState::Bookmarks => self.bookmarks,
        }
    }

    /// The controller with `m` in the place of the collection that is
    /// shown.
    pub open spec fn with_active(self, m: ModelView) -> BrowserView {
        match self.tab {
            TabState::Home => BrowserView { home: m, ..self },
            TabState::Bookmarks => BrowserView { bookmarks: m, ..self },
        }
    }

    /// The controller with nothing under way.
    pub open spec fn idle(self) -> BrowserView {
        BrowserView { job: Job::Idle, ..self }
    }

    /// Whether the collections are at rest: both are in order, the
    /// bookmarks have a thread for each summary and no title twice, and in
    /// each collection the selected thread, where there is one, has been
    /// opened.
    pub open spec fn calm(self) -> bool {
        &&& self.home.steady()
        &&& self.bookmarks.steady()
        &&& self.bookmarks.closed()
        &&& self.bookmarks.distinct()
    }

    /// Whether the controller is at rest or waits as it should: the
    /// collections are at rest, and an action that waits has still to be
    /// carried out and waits for a page that fits: a page of the overview
    /// for the home collection, to reach the thread that is next in line,
    /// or a page of the thread that is selected and open.
    pub open spec fn steady(self) -> bool {
        &&& self.calm()
        &&& self.job matches Job::Running { left, wait, .. } ==> {
            &&& left >= 1
            &&& match wait {
                Wait::Threads { target } => self.tab == TabState::Home && next_in_line(
                    self.home,
                    target as int,
                ),
                Wait::Comments { .. } => opened(self.active()),
            }
        }
    }

    /// Whether the controller is in order: both collections are, the
    /// bookmarks have a thread for each summary and no title twice, an
    /// action that waits has still to be carried out, and a page of the
    /// overview is awaited for the home collection only.
    pub open spec fn wf(self) -> bool {
        &&& self.home.wf()
        &&& self.bookmarks.wf()
        &&& self.bookmarks.closed()
        &&& self.bookmarks.distinct()
        &&& self.job matches Job::Running { left, wait, .. } ==> left >= 1 && (wait is Threads
            ==> self.tab == TabState::Home)
    }
}

/// Whether a step that asks for a page of the overview does so while the
/// home collection is shown.
pub open spec fn asked_at_home(b: BrowserView, out: Outcome) -> bool {
    out matches Outcome::Ask(Wait::Threads { .. }) ==> b.tab == TabState::Home
}

/// Whether an answer is none that tells of a selection that points
/// nowhere.
pub open spec fn found(e: EffectView) -> bool {
    e != EffectView::Failed(NavError::NotFound)
}

/// Bookmarking the selected thread of the home collection. Nothing happens
/// while the bookmarks are shown, or while the home collection is empty.
pub open spec fn add_selected(b: BrowserView) -> (BrowserView, Outcome) {
    if b.tab != TabState::Home || b.home.overview.len() == 0 {
        (b, Outcome::Finished)
    } else if !opened(b.home) {
        (b, Outcome::Failed(NavError::NotFound))
    } else {
        (
            BrowserView {
                bookmarks: bookmarked(
                    b.bookmarks,
                    b.home.overview[b.home.selected_thread],
                    b.home.threads[b.home.selected_thread],
                ),
                ..b
            },
            Outcome::Finished,
        )
    }
}

/// Removing the bookmark of the thread that is selected in the collection
/// that is shown. Nothing happens while that collection is empty.
pub open spec fn remove_selected(b: BrowserView) -> (BrowserView, Outcome) {
    let m = b.active();
    if m.overview.len() == 0 {
        (b, Outcome::Finished)
    } else if !(0 <= m.selected_thread < m.overview.len()) {
        (b, Outcome::Failed(NavError::NotFound))
    } else {
        (
            BrowserView {
                bookmarks: unbookmarked(b.bookmarks, m.overview[m.selected_thread].title),
                ..b
            },
            Outcome::Finished,
        )
    }
}

/// One step of an action that can be repeated.
pub open spec fn step(b: BrowserView, action: Action) -> (BrowserView, Outcome) {
    let m = b.active();
    match action {
        Action::NextThread => {
            let (m1, out) = next_thread(m, b.tab);
            (b.with_active(m1), out)
        },
        Action::PrevThread => (b.with_active(thread_before(m)), Outcome::Finished),
        Action::NextComment => {
            let (m1, out) = next_comment(m);
            (b.with_active(m1), out)
        },
        Action::PrevComment => (b.with_active(comment_before(m)), Outcome::Finished),
        Action::ScrollDown => (b.with_active(scrolled_down(m)), Outcome::Finished),
        Action::ScrollUp => (b.with_active(scrolled_up(m)), Outcome::Finished),
        Action::CleanComments => {
            let (m1, out) = clean_comments(m);
            (b.with_active(m1), out)
        },
        Action::AddBookmark => add_selected(b),
        Action::RemoveBookmark => remove_selected(b),
        _ => (b, Outcome::Finished),
    }
}

/// The page that a step asks for.
pub open spec fn request(b: BrowserView, wait: Wait) -> EffectView {
    match wait {
        Wait::Threads { .. } => EffectView::FetchOverview {
            url: overview_address((b.active().overview_page + 1) as nat),
        },
        Wait::Comments { .. } => {
            let m = b.active();
            EffectView::FetchThread {
                url: thread_address(
                    m.overview[m.selected_thread].url,
                    (m.threads[m.selected_thread].comment_page + 1) as nat,
                ),
            }
        },
    }
}

/// What follows a step of an action that has to be carried out `left`
/// times, this step included. After a step that is done come the steps that
/// are left. A step that asks for a page makes the controller wait. A step
/// that was given up ends the action: the steps that are left are dropped.
pub open spec fn conclude(b: BrowserView, action: Action, left: nat, out: Outcome) -> (
    BrowserView,
    EffectView,
)
    decreases left, 0nat,
{
    match out {
        Outcome::Finished => if left == 0 {
            (b.idle(), EffectView::Done)
        } else {
            run(b, action, (left - 1) as nat)
        },
        Outcome::Ask(wait) => (
            BrowserView { job: Job::Running { action, left: left as u32, wait }, ..b },
            request(b, wait),
        ),
        Outcome::Failed(e) => (b.idle(), EffectView::Failed(e)),
    }
}

/// Carrying out an action `left` times, one step after the other, each on
/// what the step before has left.
pub open spec fn run(b: BrowserView, action: Action, left: nat) -> (BrowserView, EffectView)
    decreases left, 1nat,
{
    if left == 0 {
        (b.idle(), EffectView::Done)
    } else {
        let (b1, out) = step(b, action);
        conclude(b1, action, left, out)
    }
}

/// What an action does. While a page is awaited no action is taken. A digit
/// is added to the repeat count and nothing else happens; the same holds of
/// forgetting the count and of doing nothing. Quitting is refused while a
/// repeat count is being entered. Every other action takes the repeat
/// count, which is then forgotten, and is carried out that many times.
pub open spec fn updated(b: BrowserView, action: Action) -> (BrowserView, EffectView) {
    let m = b.active();
    if b.job is Running {
        (b, EffectView::Failed(NavError::OutOfTurn))
    } else {
        match action {
            Action::Moltiply(d) => (
                b.with_active(
                    ModelView {
                        multiplier: if d <= 9 {
                            m.multiplier.push(d)
                        } else {
                            m.multiplier
                        },
                        ..m
                    },
                ),
                EffectView::Done,
            ),
            Action::Nullify => (
                b.with_active(ModelView { multiplier: Seq::empty(), ..m }),
                EffectView::Done,
            ),
            Action::Nothing => (b, EffectView::Done),
            Action::Quit => if m.multiplier.len() == 0 {
                (b, EffectView::Quit)
            } else {
                (b, EffectView::Failed(NavError::IllegalQuit))
            },
            _ => run(
                b.with_active(ModelView { multiplier: Seq::empty(), ..m }),
                action,
                repeat_count(m.multiplier),
            ),
        }
    }
}

/// What a page that is handed in does. A page that is not awaited, or is
/// not of the kind that is awaited, is refused, and with it the action that
/// waited. A page that could not be had ends the action; what was fetched
/// before stays. Any other page is added to its collection, and the action
/// goes on.
pub open spec fn resumed(b: BrowserView, page: PageView) -> (BrowserView, EffectView) {
    match b.job {
        Job::Idle => (b, EffectView::Failed(NavError::OutOfTurn)),
        Job::Running { action, left, wait } => match (wait, page) {
            (_, PageView::Failed(e)) => (b.idle(), EffectView::Failed(NavError::Fetch(e))),
            (Wait::Threads { target }, PageView::Overviews(records)) => {
                let (m, out) = threads_came(b.active(), target as int, records);
                conclude(b.with_active(m), action, left as nat, out)
            },
            (Wait::Comments { target }, PageView::Comments(records)) => {
                let (m, out) = comments_came(b.active(), target as int, records);
                conclude(b.with_active(m), action, left as nat, out)
            },
            _ => (b.idle(), EffectView::Failed(NavError::OutOfTurn)),
        },
    }
}

/// The page that the text of a fetched page spells, for a controller that
/// waits for it.
pub open spec fn page_of(b: BrowserView, body: Seq<char>) -> PageView {
    match b.job {
        Job::Running { wait: Wait::Threads { .. }, .. } => match page_overviews(xml_tokens(body)) {
            Some(records) => PageView::Overviews(records),
            None => PageView::Failed(FetchError::Unreadable),
        },
        Job::Running { wait: Wait::Comments { .. }, .. } => match page_comments(xml_tokens(body)) {
            Some(records) => PageView::Comments(records),
            None => PageView::Failed(FetchError::Unreadable),
        },
        Job::Idle => PageView::Failed(FetchError::Unreadable),
    }
}

impl Browser {
    /// A controller that shows an empty home collection beside the given
    /// bookmarks.
    pub fn new(bookmarks: Model) -> (b: Browser)
        ensures
            b@ == (BrowserView {
                home: empty_model(),
                bookmarks: bookmarks@,
                tab: TabState::Home,
                job: Job::Idle,
            }),
            bookmarks@.wf() && bookmarks@.closed() && bookmarks@.distinct() ==> b@.wf() && b@.steady(),
    {
        Browser { home: Model::new(), bookmarks, tab: TabState::Home, job: Job::Idle }
    }

    /// Whether the controller is in order.
    pub fn is_well_formed(&self) -> (ok: bool)
        ensures
            ok == self@.wf(),
    {
        let job_ok = match self.job {
            Job::Idle => true,
            Job::Running { left, wait, .. } => left >= 1 && match wait {
                Wait::Threads { .. } => match self.tab {
                    TabState::Home => true,
                    TabState::Bookmarks => false,
                },
                Wait::Comments { .. } => true,
            },
        };
        job_ok && self.home.is_well_formed() && self.bookmarks.is_well_formed()
            && self.bookmarks.is_closed() && self.bookmarks.is_distinct()
    }

    /// Whether the controller is at rest or waits as it should.
    pub fn is_steady(&self) -> (ok: bool)
        ensures
            ok == self@.steady(),
    {
        let calm = self.home.is_steady() && self.bookmarks.is_steady() && self.bookmarks.is_closed()
            && self.bookmarks.is_distinct();
        if !calm {
            return false;
        }
        match self.job {
            Job::Idle => true,
            Job::Running { left, wait, .. } => left >= 1 && match wait {
                Wait::Threads { target } => match self.tab {
                    TabState::Home => self.home.overview.len() <= target as usize
                        && target as usize <= self.home.data.data.len(),
                    TabState::Bookmarks => false,
                },
                Wait::Comments { .. } => self.current().is_opened(),
            },
        }
    }

    /// Shows the given collection, unless an action waits for a page.
    pub fn show(&mut self, tab: TabState) -> (done: bool)
        ensures
            done == (old(self)@.job is Idle),
            done ==> final(self)@ == (BrowserView { tab, ..old(self)@ }),
            !done ==> final(self)@ == old(self)@,
            old(self)@.wf() ==> final(self)@.wf(),
            old(self)@.steady() ==> final(self)@.steady(),
    {
        match self.job {
            Job::Idle => {
                self.tab = tab;
                true
            },
            Job::Running { .. } => false,
        }
    }

    /// The collection that is shown.
    pub fn current(&self) -> (m: &Model)
        ensures
            m@ == self@.active(),
    {
        match self.tab {
            TabState::Home => &self.home,
            TabState::Bookmarks => &self.bookmarks,
        }
    }

    /// Bookmarks the selected thread of the home collection.
    fn add_selected(&mut self) -> (out: Outcome)
        ensures
            (final(self)@, out) == add_selected(old(self)@),
            old(self)@.wf() ==> final(self)@.wf(),
            old(self)@.calm() ==> final(self)@.calm() && out == Outcome::Finished,
            !(out is Ask),
            final(self)@.home == old(self)@.home,
    {
        match self.tab {
            TabState::Bookmarks => Outcome::Finished,
            TabState::Home => {
                if self.home.overview.len() == 0 {
                    Outcome::Finished
                } else if !self.home.is_opened() {
                    Outcome::Failed(NavError::NotFound)
                } else {
                    let at = self.home.selected_thread as usize;
                    assert(self@.home.overview[at as int] == self.home.overview@[at as int]@);
                    assert(self@.home.threads[at as int] == self.home.data.data@[at as int]@);
                    self.bookmarks.add_bookmark(&self.home.overview[at], &self.home.data.data[at]);
                    Outcome::Finished
                }
            },
        }
    }

    /// Removes the bookmark of the thread that is selected in the
    /// collection that is shown.
    fn remove_selected(&mut self) -> (out: Outcome)
        ensures
            (final(self)@, out) == remove_selected(old(self)@),
            old(self)@.wf() ==> final(self)@.wf(),
            old(self)@.calm() ==> final(self)@.calm() && out == Outcome::Finished,
            !(out is Ask),
            final(self)@.home == old(self)@.home,
    {
        let shown = self.current();
        if shown.overview.len() == 0 {
            return Outcome::Finished;
        }
        let at = shown.selected_thread as usize;
        if at >= shown.overview.len() {
            return Outcome::Failed(NavError::NotFound);
        }
        assert(shown@.overview[at as int] == shown.overview@[at as int]@);
        let over = shown.overview[at].clone();
        self.bookmarks.delete_bookmark(&over);
        Outcome::Finished
    }

    /// Carries out one step of an action.
    fn step(&mut self, action: Action) -> (out: Outcome)
        ensures
            (final(self)@, out) == step(old(self)@, action),
            old(self)@.wf() ==> final(self)@.wf(),
            old(self)@.calm() ==> final(self)@.calm() && on_course(final(self)@.active(), out),
            out matches Outcome::Ask(w) ==> askable(final(self)@.active(), w),
            asked_at_home(final(self)@, out),
            kept(old(self)@.home, final(self)@.home),
            final(self)@.job == old(self)@.job,
            final(self)@.tab == old(self)@.tab,
    {
        match action {
            Action::AddBookmark => self.add_selected(),
            Action::RemoveBookmark => self.remove_selected(),
            _ => match self.tab {
                TabState::Home => step_model(&mut self.home, action, &TabState::Home),
                TabState::Bookmarks => step_model(&mut self.bookmarks, action, &TabState::Bookmarks),
            },
        }
    }

    /// The answer that asks for the page that a step needs.
    fn request(&self, wait: Wait) -> (e: Effect)
        requires
            askable(self@.active(), wait),
        ensures
            e@ == request(self@, wait),
    {
        let shown = self.current();
        match wait {
            Wait::Threads { .. } => Effect::FetchOverview {
                url: overview_url(shown.overview_page + 1),
            },
            Wait::Comments { .. } => {
                let at = shown.selected_thread as usize;
                assert(shown@.overview[at as int] == shown.overview@[at as int]@);
                assert(shown@.threads[at as int] == shown.data.data@[at as int]@);
                Effect::FetchThread {
                    url: thread_url(&shown.overview[at], shown.data.data[at].comment_page + 1),
                }
            },
        }
    }

    /// Ends a step that did not finish: the controller waits for the page
    /// that the step asks for, or gives the action up.
    fn stop(&mut self, action: Action, left: u32, out: Outcome) -> (e: Effect)
        requires
            !(out is Finished),
            out matches Outcome::Ask(w) ==> askable(old(self)@.active(), w),
        ensures
            (final(self)@, e@) == conclude(old(self)@, action, left as nat, out),
            old(self)@.wf() && left >= 1 && asked_at_home(old(self)@, out) ==> final(self)@.wf(),
            old(self)@.calm() && left >= 1 && asked_at_home(old(self)@, out) && on_course(
                old(self)@.active(),
                out,
            ) ==> final(self)@.steady() && found(e@),
            final(self)@.home == old(self)@.home,
            final(self)@.bookmarks == old(self)@.bookmarks,
    {
        match out {
            Outcome::Ask(wait) => {
                let e = self.request(wait);
                self.job = Job::Running { action, left, wait };
                e
            },
            Outcome::Failed(err) => {
                self.job = Job::Idle;
                Effect::Failed(err)
            },
            Outcome::Finished => {
                self.job = Job::Idle;
                Effect::Done
            },
        }
    }

    /// Carries out an action `left` times.
    fn run(&mut self, action: Action, left: u32) -> (e: Effect)
        ensures
            (final(self)@, e@) == run(old(self)@, action, left as nat),
            old(self)@.wf() ==> final(self)@.wf(),
            old(self)@.calm() ==> final(self)@.steady() && found(e@),
            kept(old(self)@.home, final(self)@.home),
    {
        let mut rest = left;
        while rest > 0
            invariant
                run(old(self)@, action, left as nat) == run(self@, action, rest as nat),
                old(self)@.wf() ==> self@.wf(),
                old(self)@.calm() ==> self@.calm(),
                kept(old(self)@.home, self@.home),
            decreases rest,
        {
            let ghost before = self@;
            let out = self.step(action);
            assert(run(before, action, rest as nat) == conclude(self@, action, rest as nat, out));
            match out {
                Outcome::Finished => {
                    rest -= 1;
                },
                _ => {
                    return self.stop(action, rest, out);
                },
            }
        }
        self.job = Job::Idle;
        Effect::Done
    }
}

impl Browser {
    /// Goes on after a step of an action that has to be carried out `left`
    /// times, this step included.
    fn conclude(&mut self, action: Action, left: u32, out: Outcome) -> (e: Effect)
        requires
            out matches Outcome::Ask(w) ==> askable(old(self)@.active(), w),
        ensures
            (final(self)@, e@) == conclude(old(self)@, action, left as nat, out),
            old(self)@.wf() && left >= 1 && asked_at_home(old(self)@, out) ==> final(self)@.wf(),
            old(self)@.calm() && left >= 1 && asked_at_home(old(self)@, out) && on_course(
                old(self)@.active(),
                out,
            ) ==> final(self)@.steady() && found(e@),
            kept(old(self)@.home, final(self)@.home),
    {
        match out {
            Outcome::Finished => {
                if left == 0 {
                    self.job = Job::Idle;
                    Effect::Done
                } else {
                    self.run(action, left - 1)
                }
            },
            _ => self.stop(action, left, out),
        }
    }
}

/// Takes an action of the reader.
pub fn update(browser: &mut Browser, action: Action) -> (e: Effect)
    ensures
        (final(browser)@, e@) == updated(old(browser)@, action),
        old(browser)@.wf() ==> final(browser)@.wf(),
        old(browser)@.steady() ==> final(browser)@.steady() && found(e@),
        kept(old(browser)@.home, final(browser)@.home),
{
    if let Job::Running { .. } = browser.job {
        return Effect::Failed(NavError::OutOfTurn);
    }
    match action {
        Action::Moltiply(d) => {
            match browser.tab {
                TabState::Home => browser.home.add_multiplier(d),
                TabState::Bookmarks => browser.bookmarks.add_multiplier(d),
            }
            Effect::Done
        },
        Action::Nullify => {
            match browser.tab {
                TabState::Home => browser.home.clean_multiplier(),
                TabState::Bookmarks => browser.bookmarks.clean_multiplier(),
            }
            Effect::Done
        },
        Action::Nothing => Effect::Done,
        Action::Quit => {
            if browser.current().multiplier.len() == 0 {
                Effect::Quit
            } else {
                Effect::Failed(NavError::IllegalQuit)
            }
        },
        _ => {
            let count = match browser.tab {
                TabState::Home => browser.home.get_multiplier(),
                TabState::Bookmarks => browser.bookmarks.get_multiplier(),
            };
            browser.run(action, count)
        },
    }
}

/// Takes a page that was asked for.
pub fn resume(browser: &mut Browser, page: Page) -> (e: Effect)
    ensures
        (final(browser)@, e@) == resumed(old(browser)@, page@),
        old(browser)@.wf() ==> final(browser)@.wf(),
        old(browser)@.steady() ==> final(browser)@.steady() && found(e@),
        kept(old(browser)@.home, final(browser)@.home),
{
    match browser.job {
        Job::Idle => Effect::Failed(NavError::OutOfTurn),
        Job::Running { action, left, wait } => {
            match page {
                Page::Failed(err) => {
                    browser.job = Job::Idle;
                    Effect::Failed(NavError::Fetch(err))
                },
                Page::Overviews(records) => match wait {
                    Wait::Threads { target } => {
                        let out = match browser.tab {
                            TabState::Home => browser.home.threads_came(target, records),
                            TabState::Bookmarks => browser.bookmarks.threads_came(target, records),
                        };
                        browser.conclude(action, left, out)
                    },
                    Wait::Comments { .. } => {
                        browser.job = Job::Idle;
                        Effect::Failed(NavError::OutOfTurn)
                    },
                },
                Page::Comments(records) => match wait {
                    Wait::Comments { target } => {
                        let out = match browser.tab {
                            TabState::Home => browser.home.comments_came(target, records),
                            TabState::Bookmarks => browser.bookmarks.comments_came(target, records),
                        };
                        browser.conclude(action, left, out)
                    },
                    Wait::Threads { .. } => {
                        browser.job = Job::Idle;
                        Effect::Failed(NavError::OutOfTurn)
                    },
                },
            }
        },
    }
}

/// The page that was handed in as text, or the failure to fetch it.
pub open spec fn handed_in(b: BrowserView, body: Result<String, FetchError>) -> PageView {
    match body {
        Ok(text) => page_of(b, text@),
        Err(e) => PageView::Failed(e),
    }
}

/// Takes the text of a page that was asked for, or the failure to fetch it.
/// The text is read for the records that the controller waits for.
pub fn deliver(browser: &mut Browser, body: Result<String, FetchError>) -> (e: Effect)
    ensures
        (final(browser)@, e@) == resumed(old(browser)@, handed_in(old(browser)@, body)),
        old(browser)@.wf() ==> final(browser)@.wf(),
        old(browser)@.steady() ==> final(browser)@.steady() && found(e@),
        kept(old(browser)@.home, final(browser)@.home),
{
    let page = match body {
        Err(e) => Page::Failed(e),
        Ok(text) => match browser.job {
            Job::Running { wait: Wait::Threads { .. }, .. } => match get_threads(text.as_str()) {
                Ok(records) => Page::Overviews(records),
                Err(e) => Page::Failed(e),
            },
            Job::Running { wait: Wait::Comments { .. }, .. } => match get_comments(text.as_str()) {
                Ok(records) => Page::Comments(records),
                Err(e) => Page::Failed(e),
            },
            Job::Idle => Page::Failed(FetchError::Unreadable),
        },
    };
    resume(browser, page)
}

/// What opening the home collection does: one step to the next thread,
/// which in an empty collection is the first. The repeat count is left
/// alone.
pub open spec fn opened_up(b: BrowserView) -> (BrowserView, EffectView) {
    if b.job is Running {
        (b, EffectView::Failed(NavError::OutOfTurn))
    } else {
        run(b, Action::NextThread, 1)
    }
}

/// Opens the collection that is shown: its first thread is selected, with
/// the first page of its comments.
pub fn open(browser: &mut Browser) -> (e: Effect)
    ensures
        (final(browser)@, e@) == opened_up(old(browser)@),
        old(browser)@.wf() ==> final(browser)@.wf(),
        old(browser)@.steady() ==> final(browser)@.steady() && found(e@),
        kept(old(browser)@.home, final(browser)@.home),
{
    if let Job::Running { .. } = browser.job {
        return Effect::Failed(NavError::OutOfTurn);
    }
    browser.run(Action::NextThread, 1)
}

/// One step of an action on one collection. Bookmarking is no step on one
/// collection and changes nothing here.
pub open spec fn model_step(m: ModelView, action: Action, tab: TabState) -> (ModelView, Outcome) {
    match action {
        Action::NextThread => next_thread(m, tab),
        Action::PrevThread => (thread_before(m), Outcome::Finished),
        Action::NextComment => next_comment(m),
        Action::PrevComment => (comment_before(m), Outcome::Finished),
        Action::ScrollDown => (scrolled_down(m), Outcome::Finished),
        Action::ScrollUp => (scrolled_up(m), Outcome::Finished),
        Action::CleanComments => clean_comments(m),
        _ => (m, Outcome::Finished),
    }
}

/// Carries out one step of an action on one collection.
fn step_model(m: &mut Model, action: Action, tab: &TabState) -> (out: Outcome)
    ensures
        (final(m)@, out) == model_step(old(m)@, action, *tab),
        old(m)@.wf() ==> final(m)@.wf(),
        old(m)@.steady() && (*tab == TabState::Bookmarks ==> old(m)@.closed()) ==> final(m)@.steady()
            && on_course(final(m)@, out),
        out matches Outcome::Ask(w) ==> askable(final(m)@, w) && (w is Threads ==> *tab
            == TabState::Home),
        kept(old(m)@, final(m)@),
        old(m)@.closed() ==> final(m)@.closed() || *tab == TabState::Home,
        final(m)@.overview == old(m)@.overview || *tab == TabState::Home,
{
    match action {
        Action::NextThread => m.next_thread(tab),
        Action::PrevThread => {
            m.prev_thread();
            Outcome::Finished
        },
        Action::NextComment => m.next_comment(),
        Action::PrevComment => {
            m.prev_comment();
            Outcome::Finished
        },
        Action::ScrollDown => {
            m.scroll_down();
            Outcome::Finished
        },
        Action::ScrollUp => {
            m.scroll_up();
            Outcome::Finished
        },
        Action::CleanComments => m.clean_comments(),
        _ => Outcome::Finished,
    }
}

} // verus!
