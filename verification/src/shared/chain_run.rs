//! One pass of a message through an enhanced middleware chain, as a state
//! machine. The caller owns the middleware and the clock: it performs each
//! action (asking a middleware whether it takes part, running one of its
//! hooks, updating the metrics) and reports what came of it.
//!
//! A request pass announces the chain start to every taking part
//! middleware, runs their request hooks in chain order, and announces the
//! chain's completion; a response pass runs the response hooks in reverse
//! chain order; send and receive passes run their hooks in chain order.
//! When a message hook fails, the error is counted, every middleware that
//! takes part is told of it, and the pass ends with that error; a failed
//! start or completion announcement ends the pass at once.
use vstd::prelude::*;
use crate::error::Error;

verus! {

/// Which message goes through the chain.
#[derive(Debug, Clone, Copy, PartialEq, Eq, Structural)]
pub enum ChainPass {
    /// An incoming request
    Request,
    /// An outgoing response
    Response,
    /// A message being sent
    Send,
    /// A message being received
    Receive,
}

/// The stages of a pass.
#[derive(Debug, Clone, Copy, PartialEq, Eq, Structural)]
pub enum ChainStage {
    /// Announcing the chain start
    Start,
    /// Running the message hooks
    Main,
    /// Announcing the chain's completion
    Complete,
    /// Telling every middleware of an error
    Notify,
}

/// The hook of a middleware that an action runs.
#[derive(Debug, Clone, Copy, PartialEq, Eq, Structural)]
pub enum ChainHook {
    /// `on_chain_start`
    ChainStart,
    /// The pass's message hook (request, response, send or receive)
    Message,
    /// `on_chain_complete`
    ChainComplete,
    /// `on_error`
    OnError,
}

/// What a pass waits for.
#[derive(Debug, Clone, Copy, PartialEq, Eq, Structural)]
pub enum Waiting {
    /// The pass has not begun
    Begin,
    /// The request counter was to be increased
    CountedRequest,
    /// Whether the current middleware takes part
    Answer,
    /// The outcome of the current middleware's hook
    Outcome,
    /// The error counter was to be increased
    CountedError,
    /// The elapsed time was to be recorded
    RecordedTime,
    /// Nothing: the pass is over
    Finished,
}

/// What the caller is to do next.
#[derive(Debug)]
pub enum ChainAction {
    /// Increase the request counter, then acknowledge
    CountRequest,
    /// Ask the middleware at this position whether it takes part
    Ask(usize),
    /// Run a hook of the middleware at this position
    Run {
        /// Position in the chain
        index: usize,
        /// The hook to run
        hook: ChainHook,
    },
    /// Increase the error counter, then acknowledge
    CountError,
    /// Record the time the pass took, then acknowledge
    RecordTime,
    /// The pass is over, with this result
    Done(Result<(), Error>),
}

/// What the caller reports.
#[derive(Debug)]
pub enum ChainEvent {
    /// Start the pass
    Begin,
    /// The counter or clock action was performed
    Acknowledged,
    /// The middleware asked takes part, or not
    Executes(bool),
    /// The hook ran with this outcome
    Ran(Result<(), Error>),
}

/// The state of a pass as the contracts see it.
pub struct RunState {
    /// Which message goes through
    pub pass: ChainPass,
    /// Number of middleware in the chain
    pub len: nat,
    /// Current stage
    pub stage: ChainStage,
    /// How many middleware of the stage have been dealt with
    pub pos: nat,
    /// What the pass waits for
    pub waiting: Waiting,
    /// The error being reported, in the notify stage
    pub error: Option<Error>,
}

/// The position of the `pos`-th middleware visited in `stage`: response
/// hooks go from the end of the chain, everything else from its start.
pub open spec fn index_at(pass: ChainPass, len: nat, stage: ChainStage, pos: nat) -> int {
    if stage == ChainStage::Main && pass == ChainPass::Response {
        len - 1 - pos
    } else {
        pos as int
    }
}

/// The hook that runs in a stage.
pub open spec fn hook_of(stage: ChainStage) -> ChainHook {
    match stage {
        ChainStage::Start => ChainHook::ChainStart,
        ChainStage::Main => ChainHook::Message,
        ChainStage::Complete => ChainHook::ChainComplete,
        ChainStage::Notify => ChainHook::OnError,
    }
}

/// The order of stages, for the recursion below.
pub open spec fn stage_rank(stage: ChainStage) -> nat {
    match stage {
        ChainStage::Start => 3,
        ChainStage::Main => 2,
        ChainStage::Complete => 1,
        ChainStage::Notify => 0,
    }
}

/// Go on with the `pos`-th middleware of `stage`, or, when the stage is
/// through, with what follows it: start is followed by the message hooks,
/// those of a request by the completion announcement, and the others, and
/// the completion, by recording the time; the notify stage ends the pass
/// with the error.
pub open spec fn advance(st: RunState, stage: ChainStage, pos: nat) -> (RunState, ChainAction)
    decreases stage_rank(stage),
{
    if pos < st.len {
        (
            RunState { stage, pos, waiting: Waiting::Answer, ..st },
            ChainAction::Ask(index_at(st.pass, st.len, stage, pos) as usize),
        )
    } else {
        match stage {
            ChainStage::Start => advance(st, ChainStage::Main, 0),
            ChainStage::Main => if st.pass == ChainPass::Request {
                advance(st, ChainStage::Complete, 0)
            } else {
                (RunState { stage, pos, waiting: Waiting::RecordedTime, ..st }, ChainAction::RecordTime)
            },
            ChainStage::Complete => (
                RunState { stage, pos, waiting: Waiting::RecordedTime, ..st },
                ChainAction::RecordTime,
            ),
            ChainStage::Notify => (
                RunState { stage, pos, waiting: Waiting::Finished, error: None, ..st },
                ChainAction::Done(
                    match st.error {
                        Some(e) => Err(e),
                        None => Ok(()),
                    },
                ),
            ),
        }
    }
}

/// The events a pass accepts in each state.
pub open spec fn accepts(st: RunState, ev: ChainEvent) -> bool {
    match st.waiting {
        Waiting::Begin => ev is Begin,
        Waiting::CountedRequest | Waiting::CountedError | Waiting::RecordedTime => ev is Acknowledged,
        Waiting::Answer => ev is Executes,
        Waiting::Outcome => ev is Ran,
        Waiting::Finished => false,
    }
}

/// The next state and action of a pass after an event.
pub open spec fn next(st: RunState, ev: ChainEvent) -> (RunState, ChainAction) {
    match ev {
        ChainEvent::Begin => if st.pass == ChainPass::Request {
            (RunState { waiting: Waiting::CountedRequest, ..st }, ChainAction::CountRequest)
        } else {
            advance(st, ChainStage::Main, 0)
        },
        ChainEvent::Acknowledged => match st.waiting {
            Waiting::CountedRequest => advance(st, ChainStage::Start, 0),
            Waiting::CountedError => advance(st, ChainStage::Notify, 0),
            _ => (RunState { waiting: Waiting::Finished, ..st }, ChainAction::Done(Ok(()))),
        },
        ChainEvent::Executes(takes_part) => if takes_part {
            (
                RunState { waiting: Waiting::Outcome, ..st },
                ChainAction::Run {
                    index: index_at(st.pass, st.len, st.stage, st.pos) as usize,
                    hook: hook_of(st.stage),
                },
            )
        } else {
            advance(st, st.stage, st.pos + 1)
        },
        ChainEvent::Ran(outcome) => match st.stage {
            ChainStage::Main => match outcome {
                Ok(_) => advance(st, ChainStage::Main, st.pos + 1),
                Err(e) => (
                    RunState { waiting: Waiting::CountedError, error: Some(e), ..st },
                    ChainAction::CountError,
                ),
            },
            ChainStage::Notify => advance(st, ChainStage::Notify, st.pos + 1),
            _ => match outcome {
                Ok(_) => advance(st, st.stage, st.pos + 1),
                Err(e) => (RunState { waiting: Waiting::Finished, ..st }, ChainAction::Done(Err(e))),
            },
        },
    }
}

/// The states a pass can be in.
pub open spec fn run_wf(st: RunState) -> bool {
    &&& (st.waiting is Answer || st.waiting is Outcome) ==> st.pos < st.len
    &&& st.stage == ChainStage::Notify && !(st.waiting is Finished) ==> st.error is Some
    &&& st.waiting is CountedError ==> st.error is Some && st.stage == ChainStage::Main
    &&& st.waiting is Begin ==> st.stage == ChainStage::Start && st.pos == 0
    &&& st.waiting is CountedRequest ==> st.stage == ChainStage::Start && st.pos == 0
    &&& (st.stage == ChainStage::Start || st.stage == ChainStage::Complete) && !(st.waiting is Begin)
        ==> st.pass == ChainPass::Request
}


/// Where a stage's positions start in the order of a pass's states.
pub open spec fn stage_base(stage: ChainStage, len: nat) -> nat {
    match stage {
        ChainStage::Start => 2,
        ChainStage::Main => 2 + 2 * len,
        ChainStage::Complete => 2 + 4 * len,
        ChainStage::Notify => 3 + 4 * len,
    }
}

/// How far a pass has come: each state a pass goes through is further than
/// the one before, and the last is `4 + 6 * len`.
pub open spec fn progress(st: RunState) -> nat {
    match st.waiting {
        Waiting::Begin => 0,
        Waiting::CountedRequest => 1,
        Waiting::Answer => stage_base(st.stage, st.len) + 2 * st.pos,
        Waiting::Outcome => stage_base(st.stage, st.len) + 2 * st.pos + 1,
        Waiting::CountedError => 2 + 4 * st.len,
        Waiting::RecordedTime => 3 + 6 * st.len,
        Waiting::Finished => 4 + 6 * st.len,
    }
}

proof fn lemma_advance_progress(st: RunState, stage: ChainStage, pos: nat)
    requires
        pos <= st.len,
    ensures
        progress(advance(st, stage, pos).0) >= stage_base(stage, st.len) + 2 * pos,
        progress(advance(st, stage, pos).0) <= 4 + 6 * st.len,
        advance(st, stage, pos).0.len == st.len,
        advance(st, stage, pos).0.pass == st.pass,
        advance(st, stage, pos).0.waiting is Finished <==> progress(advance(st, stage, pos).0) == 4
            + 6 * st.len,
    decreases stage_rank(stage),
{
    if pos >= st.len {
        match stage {
            ChainStage::Start => lemma_advance_progress(st, ChainStage::Main, 0),
            ChainStage::Main => if st.pass == ChainPass::Request {
                lemma_advance_progress(st, ChainStage::Complete, 0);
            },
            _ => {},
        }
    }
}

/// Every event a pass accepts takes it further, and a pass through `n`
/// middleware is over after at most `4 + 6 * n` events.
pub proof fn lemma_pass_progresses(st: RunState, ev: ChainEvent)
    requires
        run_wf(st),
        accepts(st, ev),
    ensures
        progress(next(st, ev).0) > progress(st),
        progress(next(st, ev).0) <= 4 + 6 * st.len,
        next(st, ev).0.len == st.len,
        next(st, ev).0.waiting is Finished <==> progress(next(st, ev).0) == 4 + 6 * st.len,
{
    match ev {
        ChainEvent::Begin => if st.pass != ChainPass::Request {
            lemma_advance_progress(st, ChainStage::Main, 0);
        },
        ChainEvent::Acknowledged => match st.waiting {
            Waiting::CountedRequest => lemma_advance_progress(st, ChainStage::Start, 0),
            Waiting::CountedError => lemma_advance_progress(st, ChainStage::Notify, 0),
            _ => {},
        },
        ChainEvent::Executes(takes_part) => if !takes_part {
            lemma_advance_progress(st, st.stage, st.pos + 1);
        },
        ChainEvent::Ran(outcome) => match st.stage {
            ChainStage::Main => if outcome is Ok {
                lemma_advance_progress(st, ChainStage::Main, st.pos + 1);
            },
            ChainStage::Notify => lemma_advance_progress(st, ChainStage::Notify, st.pos + 1),
            _ => if outcome is Ok {
                lemma_advance_progress(st, st.stage, st.pos + 1);
            },
        },
    }
}

/// A pass through a chain.
pub struct ChainRun {
    pass: ChainPass,
    len: usize,
    stage: ChainStage,
    pos: usize,
    waiting: Waiting,
    error: Option<Error>,
}

impl View for ChainRun {
    type V = RunState;

    closed spec fn view(&self) -> RunState {
        RunState {
            pass: self.pass,
            len: self.len as nat,
            stage: self.stage,
            pos: self.pos as nat,
            waiting: self.waiting,
            error: self.error,
        }
    }
}

impl ChainRun {
    /// A pass of `pass` through a chain of `len` middleware, before it
    /// begins.
    pub fn new(pass: ChainPass, len: usize) -> (r: ChainRun)
        ensures
            r@ == (RunState {
                pass,
                len: len as nat,
                stage: ChainStage::Start,
                pos: 0,
                waiting: Waiting::Begin,
                error: None,
            }),
            run_wf(r@),
    {
        ChainRun { pass, len, stage: ChainStage::Start, pos: 0, waiting: Waiting::Begin, error: None }
    }

    /// Whether the pass is over.
    pub fn is_finished(&self) -> (b: bool)
        ensures
            b == (self@.waiting is Finished),
    {
        match self.waiting {
            Waiting::Finished => true,
            _ => false,
        }
    }

    /// Whether the pass takes this event now.
    pub fn accepts(&self, ev: &ChainEvent) -> (b: bool)
        ensures
            b == accepts(self@, *ev),
    {
        match self.waiting {
            Waiting::Begin => matches!(ev, ChainEvent::Begin),
            Waiting::CountedRequest | Waiting::CountedError | Waiting::RecordedTime => matches!(
                ev,
                ChainEvent::Acknowledged
            ),
            Waiting::Answer => matches!(ev, ChainEvent::Executes(_)),
            Waiting::Outcome => matches!(ev, ChainEvent::Ran(_)),
            Waiting::Finished => false,
        }
    }

    /// The error the pass is reporting, if any.
    pub fn reported_error(&self) -> (e: Option<&Error>)
        ensures
            match e {
                Some(x) => self@.error == Some(*x),
                None => self@.error is None,
            },
    {
        match &self.error {
            Some(x) => Some(x),
            None => None,
        }
    }

    fn index(&self, stage: ChainStage, pos: usize) -> (i: usize)
        requires
            pos < self.len,
        ensures
            i == index_at(self.pass, self.len as nat, stage, pos as nat),
    {
        if stage == ChainStage::Main && self.pass == ChainPass::Response {
            self.len - 1 - pos
        } else {
            pos
        }
    }

    fn advance(&mut self, stage: ChainStage, pos: usize) -> (a: ChainAction)
        requires
            pos <= old(self).len,
            stage == ChainStage::Notify ==> old(self).error is Some,
            old(self).waiting is CountedError ==> old(self).error is Some,
            (stage == ChainStage::Start || stage == ChainStage::Complete) ==> old(self).pass
                == ChainPass::Request,
        ensures
            (final(self)@, a) == advance(old(self)@, stage, pos as nat),
            run_wf(final(self)@) || (final(self)@.waiting is Finished && final(self)@.error is None
                && run_wf(RunState { error: old(self)@.error, ..final(self)@ })),
        decreases stage_rank(stage),
    {
        if pos < self.len {
            let i = self.index(stage, pos);
            self.stage = stage;
            self.pos = pos;
            self.waiting = Waiting::Answer;
            ChainAction::Ask(i)
        } else {
            match stage {
                ChainStage::Start => self.advance(ChainStage::Main, 0),
                ChainStage::Main => {
                    if self.pass == ChainPass::Request {
                        self.advance(ChainStage::Complete, 0)
                    } else {
                        self.stage = stage;
                        self.pos = pos;
                        self.waiting = Waiting::RecordedTime;
                        ChainAction::RecordTime
                    }
                },
                ChainStage::Complete => {
                    self.stage = stage;
                    self.pos = pos;
                    self.waiting = Waiting::RecordedTime;
                    ChainAction::RecordTime
                },
                ChainStage::Notify => {
                    self.stage = stage;
                    self.pos = pos;
                    self.waiting = Waiting::Finished;
                    let result = match self.error.take() {
                        Some(e) => Err(e),
                        None => Ok(()),
                    };
                    ChainAction::Done(result)
                },
            }
        }
    }
    /// Take an event the pass accepts, and say what to do next.
    pub fn step(&mut self, ev: ChainEvent) -> (a: ChainAction)
        requires
            run_wf(old(self)@),
            accepts(old(self)@, ev),
        ensures
            (final(self)@, a) == next(old(self)@, ev),
            run_wf(final(self)@),
    {
        match ev {
            ChainEvent::Begin => {
                if self.pass == ChainPass::Request {
                    self.waiting = Waiting::CountedRequest;
                    ChainAction::CountRequest
                } else {
                    self.advance(ChainStage::Main, 0)
                }
            },
            ChainEvent::Acknowledged => match self.waiting {
                Waiting::CountedRequest => self.advance(ChainStage::Start, 0),
                Waiting::CountedError => self.advance(ChainStage::Notify, 0),
                _ => {
                    self.waiting = Waiting::Finished;
                    ChainAction::Done(Ok(()))
                },
            },
            ChainEvent::Executes(takes_part) => {
                if takes_part {
                    let index = self.index(self.stage, self.pos);
                    self.waiting = Waiting::Outcome;
                    let hook = match self.stage {
                        ChainStage::Start => ChainHook::ChainStart,
                        ChainStage::Main => ChainHook::Message,
                        ChainStage::Complete => ChainHook::ChainComplete,
                        ChainStage::Notify => ChainHook::OnError,
                    };
                    ChainAction::Run { index, hook }
                } else {
                    let stage = self.stage;
                    let pos = self.pos + 1;
                    self.advance(stage, pos)
                }
            },
            ChainEvent::Ran(outcome) => {
                let stage = self.stage;
                let pos = self.pos + 1;
                match stage {
                    ChainStage::Main => match outcome {
                        Ok(_) => self.advance(ChainStage::Main, pos),
                        Err(e) => {
                            self.waiting = Waiting::CountedError;
                            self.error = Some(e);
                            ChainAction::CountError
                        },
                    },
                    ChainStage::Notify => self.advance(ChainStage::Notify, pos),
                    _ => match outcome {
                        Ok(_) => self.advance(stage, pos),
                        Err(e) => {
                            self.waiting = Waiting::Finished;
                            ChainAction::Done(Err(e))
                        },
                    },
                }
            },
        }
    }
}

} // verus!
