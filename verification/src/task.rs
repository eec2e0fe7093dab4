//! A crawl task as its owner sees it.
//!
//! The crawl itself runs elsewhere and reports by messages: one for each
//! combo found, and one at the end that carries the outcome. The owner
//! feeds the messages to its [`CrawlerTask`], which keeps count, holds the
//! outcome until it is taken, and knows whether the crawl still has to be
//! told to stop.

use vstd::prelude::*;
use crate::aggregate::CrawlerResult;
use crate::aggregate::ResultView;
use crate::color::Color;
use crate::color::Format;
use crate::crawl::outcome_view;
use crate::crawl::Crawl;
use crate::crawl::CrawlView;
use crate::error::CrawlError;

verus! {

/// What a crawl reports to its owner.
#[derive(Debug)]
pub enum CrawlerMsg {
    /// The crawl has found one more combo.
    FoundCombo,
    /// The crawl is over, with this outcome.
    Finished { result: Result<CrawlerResult, CrawlError> },
}

/// What an owner tells its crawl.
#[derive(Debug, Clone, Copy, PartialEq, Eq, Structural)]
pub enum CrawlerThreadMsg {
    /// Stop at the next page boundary.
    Stop,
}

/// A report, as contracts see it.
pub enum MsgView {
    FoundCombo,
    Finished { result: Result<ResultView, CrawlError> },
}

impl View for CrawlerMsg {
    type V = MsgView;

    open spec fn view(&self) -> MsgView {
        match *self {
            CrawlerMsg::FoundCombo => MsgView::FoundCombo,
            CrawlerMsg::Finished { result } => MsgView::Finished { result: outcome_view(result) },
        }
    }
}

/// One crawl, as the one who started it sees it.
#[derive(Debug)]
pub struct CrawlerTask {
    result: Option<Result<CrawlerResult, CrawlError>>,
    combos_found: usize,
    finished: bool,
    stop_requested: bool,
}

/// A task, as contracts see it.
pub struct TaskView {
    /// The outcome, while it waits to be taken.
    pub result: Option<Result<ResultView, CrawlError>>,
    /// How many combos the crawl has reported.
    pub combos_found: nat,
    /// Whether the crawl has reported its outcome.
    pub finished: bool,
    /// Whether the owner has asked the crawl to stop.
    pub stop_requested: bool,
}

/// The outcome held, as contracts see it.
pub open spec fn held(result: Option<Result<CrawlerResult, CrawlError>>) -> Option<
    Result<ResultView, CrawlError>,
> {
    match result {
        Some(outcome) => Some(outcome_view(outcome)),
        None => None,
    }
}

/// The reports, as contracts see them.
pub open spec fn reports(msgs: Seq<CrawlerMsg>) -> Seq<MsgView> {
    msgs.map_values(|msg: CrawlerMsg| msg@)
}

impl TaskView {
    /// A task whose crawl has reported nothing yet.
    pub open spec fn fresh() -> TaskView {
        TaskView { result: None, combos_found: 0, finished: false, stop_requested: false }
    }

    /// The task after one report. A found combo raises the count by one, as
    /// far as the count can go. The first outcome reported is held; an
    /// outcome reported after that is dropped.
    pub open spec fn apply(self, msg: MsgView) -> TaskView {
        match msg {
            MsgView::FoundCombo => TaskView {
                combos_found: if self.combos_found < usize::MAX {
                    self.combos_found + 1
                } else {
                    self.combos_found
                },
                ..self
            },
            MsgView::Finished { result } => if self.finished {
                self
            } else {
                TaskView { result: Some(result), finished: true, ..self }
            },
        }
    }

    /// The task after a run of reports, taken in order.
    pub open spec fn apply_all(self, msgs: Seq<MsgView>) -> TaskView
        decreases msgs.len(),
    {
        if msgs.len() == 0 {
            self
        } else {
            self.apply_all(msgs.drop_last()).apply(msgs.last())
        }
    }

    /// What the owner has to send so that the crawl stops: one message, the
    /// first time it asks and while the crawl has not reported its outcome.
    pub open spec fn signal(self) -> Option<CrawlerThreadMsg> {
        if self.stop_requested || self.finished {
            None
        } else {
            Some(CrawlerThreadMsg::Stop)
        }
    }

    /// The task after the owner has asked the crawl to stop.
    pub open spec fn stop(self) -> TaskView {
        TaskView { stop_requested: true, ..self }
    }

    /// The task after the outcome has been taken.
    pub open spec fn drained(self) -> TaskView {
        TaskView { result: None, ..self }
    }
}

impl View for CrawlerTask {
    type V = TaskView;

    closed spec fn view(&self) -> TaskView {
        TaskView {
            result: held(self.result),
            combos_found: self.combos_found as nat,
            finished: self.finished,
            stop_requested: self.stop_requested,
        }
    }
}

impl CrawlerTask {
    /// Sets up a task for the search given by `colors`, `card_name` and
    /// `format`: the task for the owner to keep, and the crawl for the
    /// background unit to run.
    pub fn new(colors: Vec<Color>, card_name: Option<String>, format: Option<Format>) -> (made: (
        CrawlerTask,
        Crawl,
    ))
        ensures
            made.0@ == TaskView::fresh(),
            made.1@ == CrawlView::initial(colors@, card_name.deep_view(), format),
    {
        let task = CrawlerTask {
            result: None,
            combos_found: 0,
            finished: false,
            stop_requested: false,
        };
        (task, Crawl::new(colors, card_name, format))
    }

    /// Asks the crawl to stop. Returns the message to send to the crawl, if
    /// one is due: the first request sends one, unless the crawl has already
    /// reported its outcome.
    pub fn stop(&mut self) -> (signal: Option<CrawlerThreadMsg>)
        ensures
            final(self)@ == old(self)@.stop(),
            signal == old(self)@.signal(),
    {
        let due = !self.stop_requested && !self.finished;
        self.stop_requested = true;
        if due {
            Some(CrawlerThreadMsg::Stop)
        } else {
            None
        }
    }

    /// Takes in one report of the crawl.
    pub fn apply(&mut self, msg: CrawlerMsg)
        ensures
            final(self)@ == old(self)@.apply(msg@),
            final(self)@.combos_found >= old(self)@.combos_found,
    {
        match msg {
            CrawlerMsg::FoundCombo => {
                if self.combos_found < usize::MAX {
                    self.combos_found += 1;
                }
            },
            CrawlerMsg::Finished { result } => {
                if !self.finished {
                    self.result = Some(result);
                    self.finished = true;
                }
            },
        }
    }

    /// Takes in the reports that have come in from the crawl, in order.
    pub fn update(&mut self, msgs: Vec<CrawlerMsg>)
        ensures
            final(self)@ == old(self)@.apply_all(reports(msgs@)),
            final(self)@.combos_found >= old(self)@.combos_found,
    {
        let ghost all = reports(msgs@);
        assert(all.take(0) =~= Seq::empty());
        for msg in it: msgs
            invariant
                it.seq() == msgs@,
                all == reports(msgs@),
                self@ == old(self)@.apply_all(all.take(it.index() as int)),
                self@.combos_found >= old(self)@.combos_found,
        {
            proof {
                let upto = all.take(it.index() + 1);
                assert(upto.drop_last() =~= all.take(it.index() as int));
                assert(upto.last() == msg@);
            }
            self.apply(msg);
        }
        assert(all.take(msgs@.len() as int) =~= all);
    }

    /// How many combos the crawl has reported so far.
    pub fn combos_found(&self) -> (found: usize)
        ensures
            found == self@.combos_found,
    {
        self.combos_found
    }

    /// Whether the crawl has reported its outcome.
    pub fn is_finished(&self) -> (finished: bool)
        ensures
            finished == self@.finished,
    {
        self.finished
    }

    /// Whether an outcome waits to be taken.
    pub fn has_result(&self) -> (waiting: bool)
        ensures
            waiting == self@.result.is_some(),
    {
        self.result.is_some()
    }

    /// Takes the outcome of the crawl, if it has come in and has not been
    /// taken before.
    pub fn poll_result(&mut self) -> (outcome: Option<Result<CrawlerResult, CrawlError>>)
        ensures
            held(outcome) == old(self)@.result,
            final(self)@ == old(self)@.drained(),
    {
        self.result.take()
    }
}

/// The count of combos never falls, whatever is reported.
pub proof fn law_progress_never_falls(task: TaskView, msgs: Seq<MsgView>)
    ensures
        task.apply_all(msgs).combos_found >= task.combos_found,
        task.apply_all(msgs).stop_requested == task.stop_requested,
    decreases msgs.len(),
{
    if msgs.len() > 0 {
        law_progress_never_falls(task, msgs.drop_last());
    }
}

/// A task takes one outcome at most. Once an outcome has been reported,
/// no further report replaces it, and once it has been taken, no further
/// report brings another.
pub proof fn law_one_outcome_per_task(task: TaskView, msgs: Seq<MsgView>)
    requires
        task.finished,
    ensures
        task.apply_all(msgs).finished,
        task.apply_all(msgs).result == task.result,
        task.drained().apply_all(msgs).result is None,
{
    lemma_finished_task_keeps_result(task, msgs);
    lemma_finished_task_keeps_result(task.drained(), msgs);
}

proof fn lemma_finished_task_keeps_result(task: TaskView, msgs: Seq<MsgView>)
    requires
        task.finished,
    ensures
        task.apply_all(msgs).finished,
        task.apply_all(msgs).result == task.result,
    decreases msgs.len(),
{
    if msgs.len() > 0 {
        lemma_finished_task_keeps_result(task, msgs.drop_last());
    }
}

/// The first outcome reported is the one the task holds.
pub proof fn law_first_outcome_is_held(
    task: TaskView,
    outcome: Result<ResultView, CrawlError>,
    msgs: Seq<MsgView>,
)
    requires
        !task.finished,
    ensures
        task.apply(MsgView::Finished { result: outcome }).apply_all(msgs).result == Some(outcome),
{
    law_one_outcome_per_task(task.apply(MsgView::Finished { result: outcome }), msgs);
}

/// Asking a crawl to stop sends one message at most: asking again sends
/// nothing, and changes nothing.
pub proof fn law_stop_is_signalled_once(task: TaskView)
    ensures
        task.stop().signal() is None,
        task.stop().stop() == task.stop(),
        task.signal() is Some <==> !task.stop_requested && !task.finished,
{
}

} // verus!
