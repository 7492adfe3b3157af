//! Bounded dispatch of one query per page.
//!
//! The scheduler decides; its caller acts. The caller asks for the next
//! page to hand out, makes the query in whatever way it likes, and reports
//! the response when it has come. The scheduler never hands out more pages
//! than the limit allows, records one outcome for each page whether the
//! query succeeded or failed, and is finished when every page has one.

use crate::fetch::outcome_of;
use crate::fetch::ErrorKind;
use crate::fetch::FetchOutcome;
use crate::fetch::Response;
use crate::range::Page;
use vstd::prelude::*;

verus! {

/// One recorded outcome: the position of the page among the pages of
/// the run, and what its query produced.
#[derive(Clone, Copy, Debug, PartialEq, Eq, Structural)]
pub struct Delivery {
    pub index: usize,
    pub outcome: FetchOutcome,
}

/// What the caller of a scheduler is to do next.
#[derive(Clone, Copy, Debug, PartialEq, Eq, Structural)]
pub enum Action {
    /// Take the next page with `dispatch` and start its query.
    Dispatch,
    /// Wait for a response and report it with `complete`.
    Wait,
    /// Stop: every page has its outcome.
    Done,
}

/// Why a scheduler did not record a response.
#[derive(Clone, Copy, Debug, PartialEq, Eq, Structural)]
pub enum ScheduleError {
    /// The run has no page at that position.
    UnknownPage,
    /// The page has not been handed out yet.
    NotDispatched,
    /// The page already has its outcome.
    AlreadyCompleted,
}

/// One call that changes a scheduler: the request for the next page, or
/// the report of a response.
pub enum Step {
    Dispatch,
    Complete { index: usize, response: Response },
}

/// Mathematical model of a scheduler: the pages of the run, the limit on
/// queries in flight, how many pages have been handed out (always the
/// first ones), and the outcomes recorded so far, in the order they came.
pub struct Schedule {
    pub pages: Seq<Page>,
    pub limit: nat,
    pub dispatched: nat,
    pub delivered: Seq<Delivery>,
}

impl Schedule {
    /// Whether an outcome has been recorded for the page at `index`.
    pub open spec fn completed(self, index: int) -> bool {
        exists|k: int| 0 <= k < self.delivered.len() && (#[trigger] self.delivered[k]).index == index
    }

    /// Whether the page at `index` has been handed out and has no outcome
    /// yet.
    pub open spec fn is_in_flight(self, index: int) -> bool {
        0 <= index < self.dispatched && !self.completed(index)
    }

    /// The positions of the pages in flight.
    pub open spec fn in_flight_set(self) -> Set<int> {
        Set::new(|index: int| self.is_in_flight(index))
    }

    /// How many pages are in flight.
    pub open spec fn in_flight(self) -> nat {
        self.in_flight_set().len()
    }

    /// Whether every page has its outcome.
    pub open spec fn finished(self) -> bool {
        forall|index: int| 0 <= index < self.pages.len() ==> self.completed(index)
    }

    /// Whether a page is left to hand out and the limit leaves room for it.
    pub open spec fn can_dispatch(self) -> bool {
        self.dispatched < self.pages.len() && self.in_flight() < self.limit
    }

    /// What the caller is to do next: stop when every page has its
    /// outcome, else hand out the next page where the limit leaves room,
    /// else wait for a response.
    pub open spec fn next_action(self) -> Action {
        if self.finished() {
            Action::Done
        } else if self.can_dispatch() {
            Action::Dispatch
        } else {
            Action::Wait
        }
    }

    /// The state a scheduler starts in: nothing handed out, nothing
    /// recorded.
    pub open spec fn initial(pages: Seq<Page>, limit: nat) -> Schedule {
        Schedule { pages, limit, dispatched: 0, delivered: Seq::empty() }
    }

    /// The state after the next page has been handed out.
    pub open spec fn after_dispatch(self) -> Schedule {
        Schedule {
            pages: self.pages,
            limit: self.limit,
            dispatched: self.dispatched + 1,
            delivered: self.delivered,
        }
    }

    /// The state after the response for the page at `index` has been
    /// recorded.
    pub open spec fn after_complete(self, index: usize, response: Response) -> Schedule {
        Schedule {
            pages: self.pages,
            limit: self.limit,
            dispatched: self.dispatched,
            delivered: self.delivered.push(
                Delivery { index, outcome: outcome_of(self.pages[index as int], response) },
            ),
        }
    }

    /// The state after one call: the call takes effect where the scheduler
    /// allows it, and changes nothing where it does not.
    pub open spec fn step(self, step: Step) -> Schedule {
        match step {
            Step::Dispatch => if self.can_dispatch() {
                self.after_dispatch()
            } else {
                self
            },
            Step::Complete { index, response } => if self.is_in_flight(index as int) {
                self.after_complete(index, response)
            } else {
                self
            },
        }
    }

    /// The state of a scheduler for `pages` and `limit` after the given
    /// calls, made in that order.
    pub open spec fn replay(pages: Seq<Page>, limit: nat, steps: Seq<Step>) -> Schedule
        decreases steps.len(),
    {
        if steps.len() == 0 {
            Schedule::initial(pages, limit)
        } else {
            Schedule::replay(pages, limit, steps.drop_last()).step(steps.last())
        }
    }

    /// How many calls can still take effect: one to hand out each page
    /// not yet handed out, one to record each outcome not yet recorded.
    pub open spec fn remaining(self) -> int {
        2 * self.pages.len() - self.dispatched - self.delivered.len()
    }

    /// What holds of a scheduler at every moment: the limit is at least
    /// one; only pages of the run have been handed out; each recorded
    /// outcome belongs to a page that was handed out, and carries that
    /// page; no page has two outcomes; and the pages in flight number the
    /// pages handed out less the outcomes recorded, never more than the
    /// limit.
    pub open spec fn valid(self) -> bool {
        &&& self.limit >= 1
        &&& self.dispatched <= self.pages.len()
        &&& self.delivered.len() <= self.dispatched
        &&& forall|k: int|
            0 <= k < self.delivered.len() ==> (#[trigger] self.delivered[k]).index
                < self.dispatched && self.delivered[k].outcome.spec_page()
                == self.pages[self.delivered[k].index as int]
        &&& forall|j: int, k: int|
            0 <= j < k < self.delivered.len() ==> (#[trigger] self.delivered[j]).index != (
            #[trigger] self.delivered[k]).index
        &&& self.in_flight_set().finite()
        &&& self.in_flight() == self.dispatched - self.delivered.len()
        &&& self.in_flight() <= self.limit
    }
}

/// A scheduler starts valid, with nothing in flight.
pub proof fn lemma_initial_valid(pages: Seq<Page>, limit: nat)
    requires
        limit >= 1,
    ensures
        Schedule::initial(pages, limit).valid(),
        Schedule::initial(pages, limit).in_flight() == 0,
{
    let s = Schedule::initial(pages, limit);
    assert(s.in_flight_set() =~= Set::<int>::empty());
}

/// Handing out a page where the limit leaves room keeps the scheduler
/// valid, puts exactly that page in flight, and so never leaves more
/// pages in flight than the limit.
pub proof fn lemma_dispatch_valid(s: Schedule)
    requires
        s.valid(),
        s.can_dispatch(),
    ensures
        s.after_dispatch().valid(),
        s.after_dispatch().in_flight() == s.in_flight() + 1,
        s.after_dispatch().in_flight() <= s.limit,
        s.after_dispatch().remaining() == s.remaining() - 1,
        s.after_dispatch().is_in_flight(s.dispatched as int),
        !s.completed(s.dispatched as int),
{
    let t = s.after_dispatch();
    let next = s.dispatched as int;
    assert(!s.completed(next));
    assert forall|index: int| t.completed(index) == s.completed(index) by {}
    assert(t.in_flight_set() =~= s.in_flight_set().insert(next));
}

/// Recording the response for a page in flight keeps the scheduler valid
/// and takes exactly that page out of flight, whether the response is a
/// success or a failure.
pub proof fn lemma_complete_valid(s: Schedule, index: usize, response: Response)
    requires
        s.valid(),
        s.is_in_flight(index as int),
    ensures
        s.after_complete(index, response).valid(),
        s.after_complete(index, response).in_flight() == s.in_flight() - 1,
        s.after_complete(index, response).remaining() == s.remaining() - 1,
        s.dispatched < s.pages.len() ==> s.after_complete(index, response).can_dispatch(),
        forall|other: int|
            s.after_complete(index, response).completed(other) <==> s.completed(other) || other
                == index,
{
    let t = s.after_complete(index, response);
    let last = s.delivered.len() as int;
    assert(t.delivered[last].index == index);
    assert forall|other: int| t.completed(other) <==> s.completed(other) || other == index by {
        if s.completed(other) {
            let k = choose|k: int|
                0 <= k < s.delivered.len() && (#[trigger] s.delivered[k]).index == other;
            assert(t.delivered[k].index == other);
        }
        if t.completed(other) && other != index {
            let k = choose|k: int|
                0 <= k < t.delivered.len() && (#[trigger] t.delivered[k]).index == other;
            assert(s.delivered[k].index == other);
        }
    }
    assert(t.in_flight_set() =~= s.in_flight_set().remove(index as int));
    assert(s.in_flight_set().contains(index as int));
    assert forall|j: int, k: int| 0 <= j < k < t.delivered.len() implies (
    #[trigger] t.delivered[j]).index != (#[trigger] t.delivered[k]).index by {
        if k == last {
            assert(s.delivered[j].index == t.delivered[j].index);
        } else {
            assert(s.delivered[j].index == t.delivered[j].index);
            assert(s.delivered[k].index == t.delivered[k].index);
        }
    }
}

/// Whatever call is made on a valid scheduler, the scheduler stays valid
/// and within its limit. A call that takes effect uses up one of the
/// remaining calls, so that no more than two for each page ever take effect.
pub proof fn lemma_step_valid(s: Schedule, step: Step)
    requires
        s.valid(),
    ensures
        s.step(step).valid(),
        s.step(step).in_flight() <= s.limit,
        s.step(step).pages == s.pages,
        s.step(step).limit == s.limit,
        s.step(step) != s ==> s.step(step).remaining() == s.remaining() - 1,
        s.step(step).remaining() >= 0,
{
    match step {
        Step::Dispatch => {
            if s.can_dispatch() {
                lemma_dispatch_valid(s);
            }
        },
        Step::Complete { index, response } => {
            if s.is_in_flight(index as int) {
                lemma_complete_valid(s, index, response);
            }
        },
    }
}

/// At no moment are more pages in flight than the limit: after any calls
/// whatever on a new scheduler, in any order and with any responses, the
/// scheduler is valid, and so the pages in flight are at most `limit`.
pub proof fn lemma_replay_valid(pages: Seq<Page>, limit: nat, steps: Seq<Step>)
    requires
        limit >= 1,
    ensures
        Schedule::replay(pages, limit, steps).valid(),
        Schedule::replay(pages, limit, steps).in_flight() <= limit,
        Schedule::replay(pages, limit, steps).pages == pages,
        Schedule::replay(pages, limit, steps).limit == limit,
        0 <= Schedule::replay(pages, limit, steps).remaining() <= 2 * pages.len(),
    decreases steps.len(),
{
    if steps.len() == 0 {
        lemma_initial_valid(pages, limit);
    } else {
        lemma_replay_valid(pages, limit, steps.drop_last());
        lemma_step_valid(Schedule::replay(pages, limit, steps.drop_last()), steps.last());
    }
}

/// A valid scheduler is finished exactly when it has recorded as many
/// outcomes as there are pages. Then every page was handed out, nothing is
/// in flight, and nothing is left to hand out.
pub proof fn lemma_finished_iff_all_delivered(s: Schedule)
    requires
        s.valid(),
    ensures
        s.finished() <==> s.delivered.len() == s.pages.len(),
        s.finished() <==> s.remaining() == 0,
        s.finished() ==> s.dispatched == s.pages.len() && s.in_flight() == 0 && !s.can_dispatch(),
{
    if s.delivered.len() == s.pages.len() {
        s.in_flight_set().lemma_len0_is_empty();
        assert forall|index: int| 0 <= index < s.pages.len() implies s.completed(index) by {
            if !s.completed(index) {
                assert(s.in_flight_set().contains(index));
            }
        }
    }
    if s.finished() {
        if s.pages.len() > 0 {
            let top = s.pages.len() - 1;
            assert(s.completed(top));
        }
        assert(s.dispatched == s.pages.len());
        assert(s.in_flight_set() =~= Set::<int>::empty());
    }
}

/// A valid scheduler that is not finished is never stuck: it can hand out
/// a page, or a page is in flight, and the response for any page in
/// flight is accepted, be it a success or a failure.
pub proof fn lemma_progress(s: Schedule)
    requires
        s.valid(),
        !s.finished(),
    ensures
        s.can_dispatch() || s.in_flight() > 0,
        s.can_dispatch() ==> s.step(Step::Dispatch) != s,
        s.in_flight() > 0 ==> exists|index: int| 0 <= index < s.dispatched && s.is_in_flight(index),
        forall|index: usize, response: Response|
            s.is_in_flight(index as int) ==> #[trigger] s.step(Step::Complete { index, response })
                != s,
{
    lemma_finished_iff_all_delivered(s);
    if s.in_flight() > 0 {
        let index = s.in_flight_set().choose();
        assert(s.in_flight_set().contains(index));
        assert(s.is_in_flight(index));
    }
}

/// When a valid scheduler is finished, each page of the run has exactly
/// one recorded outcome, and that outcome carries the page.
pub proof fn lemma_finished_once_each(s: Schedule, index: int)
    requires
        s.valid(),
        s.finished(),
        0 <= index < s.pages.len(),
    ensures
        s.delivered.len() == s.pages.len(),
        exists|k: int|
            0 <= k < s.delivered.len() && (#[trigger] s.delivered[k]).index == index
                && s.delivered[k].outcome.spec_page() == s.pages[index],
        forall|j: int, k: int|
            0 <= j < s.delivered.len() && 0 <= k < s.delivered.len() && (
            #[trigger] s.delivered[j]).index == index && (#[trigger] s.delivered[k]).index == index
                ==> j == k,
{
    lemma_finished_iff_all_delivered(s);
    assert(s.completed(index));
    let k = choose|k: int| 0 <= k < s.delivered.len() && (#[trigger] s.delivered[k]).index == index;
    assert(s.delivered[k].outcome.spec_page() == s.pages[index]);
    assert forall|j: int, k: int|
        0 <= j < s.delivered.len() && 0 <= k < s.delivered.len() && (
        #[trigger] s.delivered[j]).index == index && (#[trigger] s.delivered[k]).index
            == index implies j == k by {
        if j < k {
            assert(s.delivered[j].index != s.delivered[k].index);
        }
        if k < j {
            assert(s.delivered[k].index != s.delivered[j].index);
        }
    }
}

/// A failed query is recorded like any other: against a success for the
/// same page, the scheduler ends up with the same pages handed out, the
/// same pages with an outcome, the same number in flight, and the same
/// ability to go on.
pub proof fn lemma_failure_isolated(s: Schedule, index: usize, failure: Response, success: Response)
    requires
        s.valid(),
        s.is_in_flight(index as int),
        failure.logs is Err,
    ensures
        s.after_complete(index, failure).valid(),
        s.after_complete(index, failure).delivered.last().outcome is Failure,
        s.after_complete(index, failure).dispatched == s.after_complete(index, success).dispatched,
        s.after_complete(index, failure).in_flight() == s.after_complete(
            index,
            success,
        ).in_flight(),
        s.after_complete(index, failure).can_dispatch() == s.after_complete(
            index,
            success,
        ).can_dispatch(),
        s.after_complete(index, failure).finished() == s.after_complete(index, success).finished(),
        forall|other: int|
            s.after_complete(index, failure).completed(other) == s.after_complete(
                index,
                success,
            ).completed(other),
{
    let a = s.after_complete(index, failure);
    let b = s.after_complete(index, success);
    lemma_complete_valid(s, index, failure);
    lemma_complete_valid(s, index, success);
    lemma_finished_iff_all_delivered(a);
    lemma_finished_iff_all_delivered(b);
    assert forall|other: int| a.completed(other) == b.completed(other) by {
        assert(a.completed(other) <==> s.completed(other) || other == index);
        assert(b.completed(other) <==> s.completed(other) || other == index);
    }
}

/// What a finished run says of the logs: for each recorded outcome, its
/// page and the number of logs or the kind of failure, without the time
/// the query took and without the order the outcomes came in.
pub open spec fn contents(s: Schedule) -> Set<(Page, Result<usize, ErrorKind>)> {
    Set::new(
        |entry: (Page, Result<usize, ErrorKind>)|
            exists|k: int|
                0 <= k < s.delivered.len() && entry == (
                    (#[trigger] s.delivered[k]).outcome.spec_page(),
                    s.delivered[k].outcome.content(),
                ),
    )
}

/// Two finished runs over the same pages, in which the query for each
/// page brought the same logs or the same failure, recorded the same
/// contents, however long the queries took and in whatever order they
/// completed.
pub proof fn lemma_same_data_same_contents(a: Schedule, b: Schedule)
    requires
        a.valid(),
        b.valid(),
        a.finished(),
        b.finished(),
        a.pages == b.pages,
        forall|j: int, k: int|
            0 <= j < a.delivered.len() && 0 <= k < b.delivered.len() && (
            #[trigger] a.delivered[j]).index == (#[trigger] b.delivered[k]).index
                ==> a.delivered[j].outcome.content() == b.delivered[k].outcome.content(),
    ensures
        contents(a) == contents(b),
        a.delivered.len() == b.delivered.len(),
{
    lemma_finished_iff_all_delivered(a);
    lemma_finished_iff_all_delivered(b);
    assert forall|entry: (Page, Result<usize, ErrorKind>)| contents(a).contains(entry)
        == contents(b).contains(entry) by {
        if contents(a).contains(entry) {
            let j = choose|j: int|
                0 <= j < a.delivered.len() && entry == (
                    (#[trigger] a.delivered[j]).outcome.spec_page(),
                    a.delivered[j].outcome.content(),
                );
            let index = a.delivered[j].index as int;
            assert(b.completed(index));
            let k = choose|k: int|
                0 <= k < b.delivered.len() && (#[trigger] b.delivered[k]).index == index;
            assert(entry == (b.delivered[k].outcome.spec_page(), b.delivered[k].outcome.content()));
        }
        if contents(b).contains(entry) {
            let k = choose|k: int|
                0 <= k < b.delivered.len() && entry == (
                    (#[trigger] b.delivered[k]).outcome.spec_page(),
                    b.delivered[k].outcome.content(),
                );
            let index = b.delivered[k].index as int;
            assert(a.completed(index));
            let j = choose|j: int|
                0 <= j < a.delivered.len() && (#[trigger] a.delivered[j]).index == index;
            assert(entry == (a.delivered[j].outcome.spec_page(), a.delivered[j].outcome.content()));
        }
    }
    assert(contents(a) =~= contents(b));
}

/// Hands out the pages of a run, never more at once than the limit
/// allows, and records one outcome for each.
pub struct Scheduler {
    pages: Vec<Page>,
    max_parallelism: usize,
    dispatched: usize,
    done: Vec<bool>,
    delivered: Vec<Delivery>,
}

impl View for Scheduler {
    type V = Schedule;

    closed spec fn view(&self) -> Schedule {
        Schedule {
            pages: self.pages@,
            limit: self.max_parallelism as nat,
            dispatched: self.dispatched as nat,
            delivered: self.delivered@,
        }
    }
}

impl Scheduler {
    /// Whether the flag kept for each page says if the page has its
    /// outcome.
    pub closed spec fn flags_agree(&self) -> bool {
        &&& self.done@.len() == self.pages@.len()
        &&& forall|index: int|
            0 <= index < self.done@.len() ==> (#[trigger] self.done@[index]) == self@.completed(
                index,
            )
    }

    /// Well-formedness: the model is valid and the scheduler's own
    /// bookkeeping agrees with it. Every scheduler that `new` makes is well
    /// formed, and every operation keeps it so.
    pub open spec fn wf(&self) -> bool {
        self@.valid() && self.flags_agree()
    }

    /// A scheduler for `pages` that lets at most `max_parallelism` queries
    /// be in flight, or nothing when that limit is zero, under which no
    /// page could ever be handed out.
    pub fn new(pages: Vec<Page>, max_parallelism: usize) -> (scheduler: Option<Scheduler>)
        ensures
            scheduler is Some <==> max_parallelism >= 1,
            scheduler is Some ==> scheduler.unwrap().wf() && scheduler.unwrap()@
                == Schedule::initial(pages@, max_parallelism as nat),
            scheduler is Some ==> scheduler.unwrap()@.in_flight() == 0,
    {
        if max_parallelism == 0 {
            return None;
        }
        let mut done: Vec<bool> = Vec::new();
        let mut i: usize = 0;
        while i < pages.len()
            invariant
                i <= pages@.len(),
                done@.len() == i,
                forall|k: int| 0 <= k < done@.len() ==> !(#[trigger] done@[k]),
            decreases pages@.len() - i,
        {
            done.push(false);
            i = i + 1;
        }
        proof {
            lemma_initial_valid(pages@, max_parallelism as nat);
        }
        Some(Scheduler { pages, max_parallelism, dispatched: 0, done, delivered: Vec::new() })
    }

    /// How many pages the run has.
    pub fn page_count(&self) -> (count: usize)
        ensures
            count == self@.pages.len(),
    {
        self.pages.len()
    }

    /// The page at `index`, if the run has one there.
    pub fn page(&self, index: usize) -> (page: Option<Page>)
        ensures
            page is Some <==> index < self@.pages.len(),
            page is Some ==> page.unwrap() == self@.pages[index as int],
    {
        if index < self.pages.len() {
            Some(self.pages[index])
        } else {
            None
        }
    }

    /// The limit on queries in flight.
    pub fn max_parallelism(&self) -> (limit: usize)
        ensures
            limit == self@.limit,
    {
        self.max_parallelism
    }

    /// How many pages are in flight: handed out and without an outcome.
    /// It never exceeds the limit.
    pub fn in_flight(&self) -> (count: usize)
        requires
            self.wf(),
        ensures
            count == self@.in_flight(),
            count <= self@.limit,
    {
        self.dispatched - self.delivered.len()
    }

    /// Whether every page has its outcome.
    pub fn is_finished(&self) -> (finished: bool)
        requires
            self.wf(),
        ensures
            finished == self@.finished(),
            finished == (self@.delivered.len() == self@.pages.len()),
    {
        proof {
            lemma_finished_iff_all_delivered(self@);
        }
        self.delivered.len() == self.pages.len()
    }

    /// The outcomes recorded so far, in the order they came.
    pub fn delivered(&self) -> (delivered: &Vec<Delivery>)
        ensures
            delivered@ == self@.delivered,
    {
        &self.delivered
    }

    /// What the caller is to do next.
    pub fn next_action(&self) -> (action: Action)
        requires
            self.wf(),
        ensures
            action == self@.next_action(),
            action is Wait ==> self@.in_flight() > 0,
    {
        proof {
            lemma_finished_iff_all_delivered(self@);
        }
        if self.delivered.len() == self.pages.len() {
            Action::Done
        } else if self.dispatched < self.pages.len() && self.dispatched - self.delivered.len()
            < self.max_parallelism {
            Action::Dispatch
        } else {
            Action::Wait
        }
    }

    /// Hands out the next page, with its position, where a page is left
    /// and the limit leaves room; otherwise hands out nothing and changes
    /// nothing.
    pub fn dispatch(&mut self) -> (handed: Option<(usize, Page)>)
        requires
            old(self).wf(),
        ensures
            final(self).wf(),
            handed is Some <==> old(self)@.can_dispatch(),
            handed is Some ==> handed.unwrap().0 == old(self)@.dispatched && handed.unwrap().1
                == old(self)@.pages[old(self)@.dispatched as int] && final(self)@ == old(
                self,
            )@.after_dispatch(),
            handed is Some ==> final(self)@.in_flight() == old(self)@.in_flight() + 1,
            handed is None ==> final(self)@ == old(self)@,
            final(self)@ == old(self)@.step(Step::Dispatch),
    {
        if self.dispatched < self.pages.len() && self.dispatched - self.delivered.len()
            < self.max_parallelism {
            let index: usize = self.dispatched;
            let page: Page = self.pages[index];
            proof {
                lemma_dispatch_valid(self@);
            }
            self.dispatched = index + 1;
            Some((index, page))
        } else {
            None
        }
    }

    /// Records the response to the query for the page at `index`, and
    /// returns the outcome. A failed query is an outcome like any other.
    /// A response for a page that is not in flight is refused, and
    /// nothing changes.
    pub fn complete(&mut self, index: usize, response: Response) -> (result: Result<
        FetchOutcome,
        ScheduleError,
    >)
        requires
            old(self).wf(),
        ensures
            final(self).wf(),
            result is Ok <==> old(self)@.is_in_flight(index as int),
            result is Ok ==> result.unwrap() == outcome_of(
                old(self)@.pages[index as int],
                response,
            ) && final(self)@ == old(self)@.after_complete(index, response),
            result is Ok ==> final(self)@.in_flight() == old(self)@.in_flight() - 1,
            result is Ok ==> forall|other: int|
                final(self)@.completed(other) <==> old(self)@.completed(other) || other == index,
            result is Err ==> final(self)@ == old(self)@,
            final(self)@ == old(self)@.step((Step::Complete { index, response })),
            result == Err::<FetchOutcome, ScheduleError>(ScheduleError::UnknownPage) <==> index
                >= old(self)@.pages.len(),
            result == Err::<FetchOutcome, ScheduleError>(ScheduleError::NotDispatched) <==> old(
                self,
            )@.dispatched <= index < old(self)@.pages.len(),
            result == Err::<FetchOutcome, ScheduleError>(ScheduleError::AlreadyCompleted) <==> index
                < old(self)@.dispatched && old(self)@.completed(index as int),
    {
        if index >= self.pages.len() {
            return Err(ScheduleError::UnknownPage);
        }
        if index >= self.dispatched {
            return Err(ScheduleError::NotDispatched);
        }
        if self.done[index] {
            return Err(ScheduleError::AlreadyCompleted);
        }
        let outcome = FetchOutcome::from_response(self.pages[index], response);
        proof {
            lemma_complete_valid(self@, index, response);
        }
        self.done.set(index, true);
        self.delivered.push(Delivery { index, outcome });
        Ok(outcome)
    }
}

/// Whether `outcome` is what `fetch` can produce for `page`: the record of
/// a response that `fetch` may return when it is called with the page.
pub open spec fn fetched_by<F: Fn(Page) -> Response>(
    fetch: F,
    page: Page,
    outcome: FetchOutcome,
) -> bool {
    exists|response: Response| #[trigger]
        call_ensures(fetch, (page,), response) && outcome == outcome_of(page, response)
}

/// The outcomes of a sequence of deliveries, in the same order.
pub open spec fn outcomes_of(delivered: Seq<Delivery>) -> Seq<FetchOutcome> {
    delivered.map_values(|delivery: Delivery| delivery.outcome)
}

/// Whether `outcomes` are what a scheduler for `pages` and `limit` has
/// recorded when some sequence of calls has brought it to its end.
pub open spec fn recorded_by_run(pages: Seq<Page>, limit: nat, outcomes: Seq<FetchOutcome>) -> bool {
    exists|steps: Seq<Step>|
        (#[trigger] Schedule::replay(pages, limit, steps)).finished() && outcomes == outcomes_of(
            Schedule::replay(pages, limit, steps).delivered,
        )
}

/// Runs every page through `fetch` on the calling thread and returns the
/// outcomes in the order they were recorded, or nothing when
/// `max_parallelism` is zero.
///
/// The run is a run of a scheduler: pages are handed out while the limit
/// leaves room; then the page that has been in flight longest is queried
/// and its response recorded, so here the outcomes come in the order of
/// the pages. Each page is queried once, and a query that fails is
/// recorded and the run goes on.
pub fn run<F: Fn(Page) -> Response>(pages: Vec<Page>, max_parallelism: usize, fetch: F) -> (outcomes:
    Option<Vec<FetchOutcome>>)
    requires
        forall|i: int| 0 <= i < pages@.len() ==> call_requires(fetch, (#[trigger] pages@[i],)),
    ensures
        outcomes is Some <==> max_parallelism >= 1,
        outcomes is Some ==> outcomes.unwrap()@.len() == pages@.len(),
        outcomes is Some ==> forall|i: int|
            0 <= i < pages@.len() ==> fetched_by(
                fetch,
                pages@[i],
                #[trigger] outcomes.unwrap()@[i],
            ) && outcomes.unwrap()@[i].spec_page() == pages@[i],
        outcomes is Some ==> recorded_by_run(
            pages@,
            max_parallelism as nat,
            outcomes.unwrap()@,
        ),
{
    let ghost all = pages@;
    let ghost limit = max_parallelism as nat;
    let mut scheduler = match Scheduler::new(pages, max_parallelism) {
        Some(scheduler) => scheduler,
        None => {
            return None;
        },
    };
    let mut outcomes: Vec<FetchOutcome> = Vec::new();
    let ghost mut steps: Seq<Step> = Seq::empty();
    while !scheduler.is_finished()
        invariant
            scheduler.wf(),
            scheduler@ == Schedule::replay(all, limit, steps),
            scheduler@.pages == all,
            forall|i: int| 0 <= i < all.len() ==> call_requires(fetch, (#[trigger] all[i],)),
            outcomes@ == outcomes_of(scheduler@.delivered),
            forall|k: int|
                0 <= k < scheduler@.delivered.len() ==> (#[trigger] scheduler@.delivered[k]).index
                    == k,
            forall|i: int|
                0 <= i < outcomes@.len() ==> fetched_by(fetch, all[i], #[trigger] outcomes@[i]),
        decreases scheduler@.remaining(),
    {
        let ghost before = scheduler@;
        let ghost recorded = outcomes@;
        let ghost made = steps;
        match scheduler.dispatch() {
            Some(_) => {
                proof {
                    steps = made.push(Step::Dispatch);
                    assert(steps.drop_last() =~= made);
                }
            },
            None => {
                let index: usize = outcomes.len();
                proof {
                    lemma_progress(before);
                    if before.completed(index as int) {
                        let k = choose|k: int|
                            0 <= k < before.delivered.len() && (#[trigger] before.delivered[k]).index
                                == index;
                        assert(before.delivered[k].index == k);
                    }
                }
                let page: Page = scheduler.page(index).unwrap();
                let response = fetch(page);
                let result = scheduler.complete(index, response);
                let outcome = result.unwrap();
                outcomes.push(outcome);
                proof {
                    steps = made.push(Step::Complete { index, response });
                    assert(steps.drop_last() =~= made);
                    assert(outcomes@ =~= outcomes_of(scheduler@.delivered));
                    assert(call_ensures(fetch, (page,), response));
                    assert forall|i: int| 0 <= i < outcomes@.len() implies fetched_by(
                        fetch,
                        all[i],
                        #[trigger] outcomes@[i],
                    ) by {
                        if i < recorded.len() {
                            assert(outcomes@[i] == recorded[i]);
                        }
                    }
                }
            },
        }
    }
    proof {
        lemma_finished_iff_all_delivered(scheduler@);
        assert(Schedule::replay(all, limit, steps).finished());
        assert forall|i: int| 0 <= i < all.len() implies (#[trigger] outcomes@[i]).spec_page()
            == all[i] by {
            assert(scheduler@.delivered[i].index == i);
        }
    }
    Some(outcomes)
}

} // verus!
