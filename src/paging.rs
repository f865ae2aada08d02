//! Draining a cursor-paginated source under a request-rate ceiling.
//!
//! `FetchSession` holds the decisions of one fetch; the caller performs the
//! requests and the pauses it asks for and reports each page back.
use vstd::prelude::*;

verus! {

/// Largest number of items one page request may ask for.
pub const PAGE_CAP: u64 = 50;

/// Number of requests that may be issued before the session pauses.
pub const WINDOW_QUOTA: u64 = 5;

/// What the caller of a fetch session must do next.
#[derive(Debug, Clone, Copy, PartialEq, Eq, Structural)]
pub enum FetchAction {
    /// Ask the source for one page of at most `max_items` items, at the
    /// session's current cursor.
    Request { max_items: u64 },
    /// Wait one rate window before issuing further requests.
    Pause,
    /// The fetch is over: the source is exhausted or the limit is reached.
    Finish,
}

/// Mathematical state of a fetch session.
pub struct FetchState {
    pub limit: nat,
    pub page_cap: nat,
    pub quota: nat,
    /// Items yielded so far.
    pub produced: nat,
    /// Requests issued since the start or the last pause.
    pub in_window: nat,
    pub finished: bool,
}

impl FetchState {
    pub open spec fn wf(self) -> bool {
        &&& self.page_cap >= 1
        &&& self.quota >= 1
        &&& self.limit <= u64::MAX
        &&& self.page_cap <= u64::MAX
        &&& self.quota <= u64::MAX
        &&& self.produced <= self.limit
        &&& self.in_window <= self.quota
        &&& !self.finished ==> self.produced < self.limit
    }

    /// Items that may still be yielded.
    pub open spec fn remaining(self) -> nat {
        (self.limit - self.produced) as nat
    }

    /// Size of the next page request: the remaining budget, capped.
    pub open spec fn request_size(self) -> nat {
        if self.remaining() < self.page_cap {
            self.remaining()
        } else {
            self.page_cap
        }
    }

    pub open spec fn next_action(self) -> FetchAction {
        if self.finished {
            FetchAction::Finish
        } else if self.in_window >= self.quota {
            FetchAction::Pause
        } else {
            FetchAction::Request { max_items: self.request_size() as u64 }
        }
    }

    /// The state after the pause that ends a rate window.
    pub open spec fn after_pause(self) -> FetchState {
        FetchState { in_window: 0, ..self }
    }

    /// How many items of a page of `received` items are yielded.
    pub open spec fn taken(self, received: nat) -> nat {
        if received < self.remaining() {
            received
        } else {
            self.remaining()
        }
    }

    /// The state after a page of `received` items, with or without a
    /// continuation cursor.
    pub open spec fn after_page(self, received: nat, has_next: bool) -> FetchState {
        let produced = self.produced + self.taken(received);
        FetchState {
            produced,
            in_window: self.in_window + 1,
            finished: !has_next || produced >= self.limit,
            ..self
        }
    }
}

/// The state in which a fetch of at most `limit` items begins.
pub open spec fn initial_state(limit: nat, page_cap: nat, quota: nat) -> FetchState {
    FetchState { limit, page_cap, quota, produced: 0, in_window: 0, finished: limit == 0 }
}

/// Session state of one paginated fetch.
pub struct FetchSession {
    limit: u64,
    page_cap: u64,
    quota: u64,
    produced: u64,
    in_window: u64,
    finished: bool,
    cursor: Option<String>,
}

impl View for FetchSession {
    type V = FetchState;

    closed spec fn view(&self) -> FetchState {
        FetchState {
            limit: self.limit as nat,
            page_cap: self.page_cap as nat,
            quota: self.quota as nat,
            produced: self.produced as nat,
            in_window: self.in_window as nat,
            finished: self.finished,
        }
    }
}

impl FetchSession {
    /// The continuation cursor to send with the next request.
    pub closed spec fn spec_cursor(&self) -> Option<String> {
        self.cursor
    }

    /// A session yielding at most `limit` items, with the source's own
    /// page cap and request quota.
    pub fn new(limit: u64) -> (s: FetchSession)
        ensures
            s@ == initial_state(limit as nat, PAGE_CAP as nat, WINDOW_QUOTA as nat),
            s@.wf(),
            s.spec_cursor() is None,
    {
        FetchSession::with_rate(limit, PAGE_CAP, WINDOW_QUOTA)
    }

    /// A session yielding at most `limit` items, asking for at most
    /// `page_cap` items per request and issuing at most `quota` requests
    /// per rate window.
    pub fn with_rate(limit: u64, page_cap: u64, quota: u64) -> (s: FetchSession)
        requires
            page_cap >= 1,
            quota >= 1,
        ensures
            s@ == initial_state(limit as nat, page_cap as nat, quota as nat),
            s@.wf(),
            s.spec_cursor() is None,
    {
        FetchSession {
            limit,
            page_cap,
            quota,
            produced: 0,
            in_window: 0,
            finished: limit == 0,
            cursor: None,
        }
    }

    pub fn next_action(&self) -> (a: FetchAction)
        requires
            self@.wf(),
        ensures
            a == self@.next_action(),
    {
        if self.finished {
            FetchAction::Finish
        } else if self.in_window >= self.quota {
            FetchAction::Pause
        } else {
            let remaining = self.limit - self.produced;
            let max_items = if remaining < self.page_cap { remaining } else { self.page_cap };
            FetchAction::Request { max_items }
        }
    }

    /// Records that the caller paused for one rate window.
    pub fn record_pause(&mut self)
        requires
            old(self)@.wf(),
            old(self)@.next_action() is Pause,
        ensures
            final(self)@ == old(self)@.after_pause(),
            final(self)@.wf(),
            final(self).spec_cursor() == old(self).spec_cursor(),
    {
        self.in_window = 0;
    }

    /// Records the page that answered the last request, and returns the
    /// items of it that the fetch yields: all of them, or as many as the
    /// limit still admits.
    pub fn record_page<T>(&mut self, items: Vec<T>, next_cursor: Option<String>) -> (yielded: Vec<T>)
        requires
            old(self)@.wf(),
            old(self)@.next_action() is Request,
        ensures
            final(self)@ == old(self)@.after_page(items@.len(), next_cursor is Some),
            final(self)@.wf(),
            yielded@ == items@.take(old(self)@.taken(items@.len()) as int),
            final(self).spec_cursor() == next_cursor,
    {
        let mut items = items;
        let remaining = self.limit - self.produced;
        let n = items.len();
        let take: usize = if (n as u64) < remaining { n } else { remaining as usize };
        items.truncate(take);
        self.produced = self.produced + take as u64;
        self.in_window = self.in_window + 1;
        self.finished = next_cursor.is_none() || self.produced >= self.limit;
        self.cursor = next_cursor;
        items
    }

    /// The continuation cursor to send with the next request.
    pub fn cursor(&self) -> (c: &Option<String>)
        ensures
            *c == self.spec_cursor(),
    {
        &self.cursor
    }

    pub fn is_finished(&self) -> (b: bool)
        ensures
            b == self@.finished,
    {
        self.finished
    }

    /// Items yielded so far.
    pub fn produced(&self) -> (n: u64)
        ensures
            n == self@.produced,
    {
        self.produced
    }
}

/// A paginated source, as a fetch sees it: the items it holds, in order, and
/// how it answers a request at offset `at` for at most `max` items: with
/// `size(at, max)` items, and a continuation cursor when `more(at, max)`.
pub struct PagedSource<T> {
    pub items: Seq<T>,
    pub size: spec_fn(nat, nat) -> nat,
    pub more: spec_fn(nat, nat) -> bool,
}

impl<T> PagedSource<T> {
    /// The page answered to a request at offset `at` for at most `max` items.
    pub open spec fn page(self, at: nat, max: nat) -> Seq<T> {
        self.items.subrange(at as int, (at + (self.size)(at, max)) as int)
    }

    /// The source keeps its contract: no page exceeds what was asked or what
    /// is left, a page without a cursor ends the items, and a page with a
    /// cursor brings at least one item.
    pub open spec fn valid(self) -> bool {
        forall|at: nat, max: nat|
            at <= self.items.len() && max >= 1 ==> {
                &&& #[trigger] (self.size)(at, max) <= max
                &&& at + (self.size)(at, max) <= self.items.len()
                &&& !(self.more)(at, max) ==> at + (self.size)(at, max) == self.items.len()
                &&& (self.more)(at, max) ==> (self.size)(at, max) >= 1
            }
    }
}

/// A run of at most `fuel` steps of a session in state `s` against the source
/// `src`, the caller following each action and the cursor standing for the
/// offset of the items yielded so far: the state reached, the requests and
/// pauses issued, and the items yielded.
pub open spec fn drive<T>(s: FetchState, src: PagedSource<T>, fuel: nat) -> (FetchState, Seq<FetchAction>, Seq<T>)
    decreases fuel,
{
    if fuel == 0 {
        (s, Seq::empty(), Seq::empty())
    } else {
        match s.next_action() {
            FetchAction::Finish => (s, Seq::empty(), Seq::empty()),
            FetchAction::Pause => {
                let (f, acts, ys) = drive(s.after_pause(), src, (fuel - 1) as nat);
                (f, seq![FetchAction::Pause] + acts, ys)
            },
            FetchAction::Request { max_items } => {
                let page = src.page(s.produced, max_items as nat);
                let more = (src.more)(s.produced, max_items as nat);
                let (f, acts, ys) = drive(s.after_page(page.len(), more), src, (fuel - 1) as nat);
                (f, seq![FetchAction::Request { max_items }] + acts, page.take(s.taken(page.len()) as int) + ys)
            },
        }
    }
}

/// Requests issued since the last pause, after the actions `acts`, starting
/// with `w` requests already in the window.
pub open spec fn window_after(w: nat, acts: Seq<FetchAction>) -> nat
    decreases acts.len(),
{
    if acts.len() == 0 {
        w
    } else {
        let w1: nat = match acts[0] {
            FetchAction::Pause => 0,
            FetchAction::Request { .. } => w + 1,
            FetchAction::Finish => w,
        };
        window_after(w1, acts.drop_first())
    }
}

/// Steps after which a run from `s` against `n` items has surely ended.
pub open spec fn steps_needed(s: FetchState, n: nat) -> nat {
    let m = if s.limit < n { s.limit } else { n };
    if s.finished {
        0
    } else {
        (2 * (m - s.produced) + 1 + if s.in_window >= s.quota { 1int } else { 0int }) as nat
    }
}

proof fn lemma_drive_yields<T>(s: FetchState, src: PagedSource<T>, fuel: nat)
    requires
        s.wf(),
        src.valid(),
        s.produced <= src.items.len(),
        s.finished ==> s.produced == (if s.limit < src.items.len() { s.limit } else { src.items.len() }),
        fuel >= steps_needed(s, src.items.len()),
    ensures
        ({
            let (f, acts, ys) = drive(s, src, fuel);
            let m = if s.limit < src.items.len() { s.limit } else { src.items.len() };
            &&& f.finished
            &&& f.produced == m
            &&& ys == src.items.subrange(s.produced as int, m as int)
        }),
    decreases fuel,
{
    let m = if s.limit < src.items.len() { s.limit } else { src.items.len() };
    if s.finished {
        assert(src.items.subrange(s.produced as int, m as int) =~= Seq::<T>::empty());
    } else {
        match s.next_action() {
            FetchAction::Pause => {
                lemma_drive_yields(s.after_pause(), src, (fuel - 1) as nat);
            },
            FetchAction::Request { max_items } => {
                let size = (src.size)(s.produced, max_items as nat);
                assert(size <= max_items);
                let page = src.page(s.produced, max_items as nat);
                let more = (src.more)(s.produced, max_items as nat);
                let s1 = s.after_page(page.len(), more);
                lemma_drive_yields(s1, src, (fuel - 1) as nat);
                let (f, acts, ys) = drive(s1, src, (fuel - 1) as nat);
                assert(page.take(s.taken(page.len()) as int) + ys =~= src.items.subrange(s.produced as int, m as int));
            },
            FetchAction::Finish => {},
        }
    }
}

proof fn lemma_drive_windows<T>(s: FetchState, src: PagedSource<T>, fuel: nat)
    requires
        s.wf(),
    ensures
        ({
            let acts = drive(s, src, fuel).1;
            forall|k: int| 0 <= k <= acts.len() ==> {
                &&& window_after(s.in_window, #[trigger] acts.take(k)) <= s.quota
                &&& k < acts.len() && acts[k] is Pause ==> window_after(s.in_window, acts.take(k)) == s.quota
                &&& k < acts.len() ==> !(acts[k] is Finish)
            }
        }),
    decreases fuel,
{
    let acts = drive(s, src, fuel).1;
    if fuel > 0 {
        let s1 = match s.next_action() {
            FetchAction::Pause => s.after_pause(),
            FetchAction::Request { max_items } => {
                let page = src.page(s.produced, max_items as nat);
                s.after_page(page.len(), (src.more)(s.produced, max_items as nat))
            },
            FetchAction::Finish => s,
        };
        if !(s.next_action() is Finish) {
            lemma_drive_windows(s1, src, (fuel - 1) as nat);
            let rest = drive(s1, src, (fuel - 1) as nat).1;
            assert forall|k: int| 0 <= k <= acts.len() implies {
                &&& window_after(s.in_window, #[trigger] acts.take(k)) <= s.quota
                &&& k < acts.len() && acts[k] is Pause ==> window_after(s.in_window, acts.take(k)) == s.quota
                &&& k < acts.len() ==> !(acts[k] is Finish)
            } by {
                if k > 0 {
                    assert(acts.take(k).drop_first() =~= rest.take(k - 1));
                    if k < acts.len() {
                        assert(acts[k] == rest[k - 1]);
                    }
                }
            }
        }
    }
}

/// A fetch with limit zero issues no request and yields nothing.
pub proof fn lemma_zero_limit_fetches_nothing<T>(src: PagedSource<T>, page_cap: nat, quota: nat, fuel: nat)
    ensures
        ({
            let (f, acts, ys) = drive(initial_state(0, page_cap, quota), src, fuel);
            &&& f.finished
            &&& acts.len() == 0
            &&& ys.len() == 0
        }),
{
}

/// Against a source holding fewer items than the limit, a fetch yields every
/// item of it, in order, and ends below the limit: that is, on a page that
/// carried no continuation cursor.
pub proof fn lemma_short_source_is_drained<T>(src: PagedSource<T>, limit: nat, page_cap: nat, quota: nat, fuel: nat)
    requires
        src.valid(),
        1 <= page_cap <= u64::MAX,
        1 <= quota <= u64::MAX,
        limit <= u64::MAX,
        src.items.len() < limit,
        fuel >= 2 * limit + 2,
    ensures
        ({
            let (f, acts, ys) = drive(initial_state(limit, page_cap, quota), src, fuel);
            &&& f.finished
            &&& f.produced < limit
            &&& ys == src.items
        }),
{
    lemma_drive_yields(initial_state(limit, page_cap, quota), src, fuel);
    assert(src.items.subrange(0, src.items.len() as int) =~= src.items);
}

/// Against a source holding more items than the limit, a fetch yields exactly
/// the first `limit` items and then ends.
pub proof fn lemma_long_source_is_cut<T>(src: PagedSource<T>, limit: nat, page_cap: nat, quota: nat, fuel: nat)
    requires
        src.valid(),
        1 <= page_cap <= u64::MAX,
        1 <= quota <= u64::MAX,
        0 < limit <= u64::MAX,
        src.items.len() > limit,
        fuel >= 2 * limit + 2,
    ensures
        ({
            let (f, acts, ys) = drive(initial_state(limit, page_cap, quota), src, fuel);
            &&& f.finished
            &&& f.next_action() is Finish
            &&& ys == src.items.take(limit as int)
            &&& ys.len() == limit
        }),
{
    lemma_drive_yields(initial_state(limit, page_cap, quota), src, fuel);
}

/// Once a page brings the yielded count up to the limit, the session asks for
/// no further page, whether or not the page held more items and a cursor.
pub proof fn lemma_limit_ends_fetch(s: FetchState, received: nat, has_next: bool)
    requires
        s.wf(),
        s.next_action() is Request,
        s.taken(received) == s.remaining(),
    ensures
        s.after_page(received, has_next).next_action() is Finish,
{
}

/// Rate discipline: in any run, at most `quota` requests are issued between
/// two pauses; a pause comes only after exactly `quota` requests, so no two
/// pauses follow each other; and a session that has filled its window and is
/// not done pauses before its next request.
pub proof fn lemma_rate_discipline<T>(s: FetchState, src: PagedSource<T>, fuel: nat)
    requires
        s.wf(),
        s.in_window == 0,
    ensures
        ({
            let acts = drive(s, src, fuel).1;
            forall|k: int| 0 <= k <= acts.len() ==> {
                &&& window_after(0, #[trigger] acts.take(k)) <= s.quota
                &&& k < acts.len() && acts[k] is Pause ==> window_after(0, acts.take(k)) == s.quota
            }
        }),
        forall|t: FetchState| #![auto] t.wf() && !t.finished && t.in_window == t.quota ==> t.next_action() is Pause,
        forall|t: FetchState| #![auto] t.wf() && t.next_action() is Pause ==> !(t.after_pause().next_action() is Pause),
{
    lemma_drive_windows(s, src, fuel);
}

/// Two fetches with the same limit against the same source yield the same
/// items in the same order.
pub proof fn lemma_fetch_repeatable<T>(src: PagedSource<T>, limit: nat, page_cap: nat, quota: nat, fuel1: nat, fuel2: nat)
    requires
        src.valid(),
        1 <= page_cap <= u64::MAX,
        1 <= quota <= u64::MAX,
        limit <= u64::MAX,
        fuel1 >= 2 * limit + 2,
        fuel2 >= 2 * limit + 2,
    ensures
        drive(initial_state(limit, page_cap, quota), src, fuel1).2
            == drive(initial_state(limit, page_cap, quota), src, fuel2).2,
{
    lemma_drive_yields(initial_state(limit, page_cap, quota), src, fuel1);
    lemma_drive_yields(initial_state(limit, page_cap, quota), src, fuel2);
}

} // verus!
