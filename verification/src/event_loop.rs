//! The course of the thread that talks to the compositor: a warm-up until windows are
//! listed, then the announcement that it is ready, then its work until it is told to stop.

use vstd::prelude::*;

use crate::app_data::AppData;
use crate::error::WmError;
use crate::persistent_toggle::PersistentStep;
use crate::request::ToplevelRequest;
use crate::toplevel::Toplevel;

verus! {

/// How often events are awaited during the warm-up, at most.
pub const WARMUP_ROUNDS: u8 = 3;

/// How long events are awaited in one round of the warm-up, in milliseconds.
pub const WARMUP_ROUND_MILLIS: u64 = 100;

/// How long the reply to a request is awaited, in seconds.
pub const REPLY_TIMEOUT_SECONDS: u64 = 2;

/// How far the thread has come.
#[derive(Debug, Clone, Copy, PartialEq, Eq, Structural)]
pub enum LoopPhase {
    /// So many rounds of the warm-up are left after the present one.
    WarmingUp { rounds_left: u8 },
    /// It is announcing that it is ready.
    Announcing,
    /// It is at work.
    Running,
    /// It has come to its end.
    Stopped,
}

/// What the thread does next.
#[derive(Debug, Clone, Copy, PartialEq, Eq, Structural)]
pub enum LoopAction {
    /// Await events for one round of the warm-up.
    WarmUp,
    /// Announce that the thread is ready.
    AnnounceReady,
    /// Await events as long as it takes.
    Dispatch,
    /// End.
    Stop,
}

/// What the thread does next, once the action of `phase` is done.
pub open spec fn next_action(phase: LoopPhase, windows_listed: bool, exit: bool) -> LoopAction {
    match phase {
        LoopPhase::WarmingUp { rounds_left } => if windows_listed || rounds_left == 0 {
            LoopAction::AnnounceReady
        } else {
            LoopAction::WarmUp
        },
        LoopPhase::Announcing | LoopPhase::Running => if exit {
            LoopAction::Stop
        } else {
            LoopAction::Dispatch
        },
        LoopPhase::Stopped => LoopAction::Stop,
    }
}

/// How far the thread has come, once the action of `phase` is done.
pub open spec fn next_phase(phase: LoopPhase, windows_listed: bool, exit: bool) -> LoopPhase {
    match next_action(phase, windows_listed, exit) {
        LoopAction::WarmUp => LoopPhase::WarmingUp {
            rounds_left: (phase->rounds_left - 1) as u8,
        },
        LoopAction::AnnounceReady => LoopPhase::Announcing,
        LoopAction::Dispatch => LoopPhase::Running,
        LoopAction::Stop => LoopPhase::Stopped,
    }
}

/// The phase in which the thread awaits events for the first time.
pub open spec fn first_phase() -> LoopPhase {
    LoopPhase::WarmingUp { rounds_left: (WARMUP_ROUNDS - 1) as u8 }
}

/// The thread begins with a round of the warm-up.
pub fn start() -> (first: (LoopPhase, LoopAction))
    ensures
        first == (first_phase(), LoopAction::WarmUp),
{
    (LoopPhase::WarmingUp { rounds_left: WARMUP_ROUNDS - 1 }, LoopAction::WarmUp)
}

/// The action of `phase` is done. `windows_listed` says whether any window is listed by now,
/// `exit` whether the request channel was closed.
pub fn advance(phase: LoopPhase, windows_listed: bool, exit: bool) -> (next: (
    LoopPhase,
    LoopAction,
))
    ensures
        next == (
            next_phase(phase, windows_listed, exit),
            next_action(phase, windows_listed, exit),
        ),
{
    match phase {
        LoopPhase::WarmingUp { rounds_left } => if windows_listed || rounds_left == 0 {
            (LoopPhase::Announcing, LoopAction::AnnounceReady)
        } else {
            (LoopPhase::WarmingUp { rounds_left: rounds_left - 1 }, LoopAction::WarmUp)
        },
        LoopPhase::Announcing | LoopPhase::Running => if exit {
            (LoopPhase::Stopped, LoopAction::Stop)
        } else {
            (LoopPhase::Running, LoopAction::Dispatch)
        },
        LoopPhase::Stopped => (LoopPhase::Stopped, LoopAction::Stop),
    }
}

/// What came over the request channel.
#[derive(Debug, Clone, Copy, PartialEq, Eq, Structural)]
pub enum ChannelEvent {
    Toggle,
    TogglePersistent,
    Closed,
}

/// What to do about it.
#[derive(Debug)]
pub enum ChannelAction {
    /// Send the requests, then reply.
    Reply { requests: Vec<ToplevelRequest>, result: Result<(), WmError> },
    /// Take the steps of a toggle across runs, this one first.
    Persistent(PersistentStep),
    Nothing,
}

impl AppData {
    /// Answers what came over the request channel.
    pub fn handle_channel_event(&mut self, event: ChannelEvent, toplevels: &Vec<Toplevel>) -> (action:
        ChannelAction)
        requires
            old(self).wf(),
        ensures
            final(self).wf(),
            event is Toggle ==> {
                let (state, asked) = crate::model::toggle(
                    old(self)@,
                    crate::toplevel::listing(toplevels@),
                );
                &&& final(self)@ == state
                &&& action matches ChannelAction::Reply { requests, result }
                &&& match asked {
                    Ok(asked) => requests@ == asked && result is Ok,
                    Err(text) => requests@ == Seq::<ToplevelRequest>::empty()
                        && crate::error::outcome(result) == Err::<(), Seq<char>>(text),
                }
            },
            event is TogglePersistent ==> {
                &&& final(self)@ == old(self)@
                &&& action matches ChannelAction::Persistent(step)
                &&& exists|config: Option<Seq<u8>>|
                    step@ == crate::persistent_toggle::begin(
                        #[trigger] crate::paths::snapshot_path(config),
                    )
            },
            event is Closed ==> {
                &&& final(self)@ == (crate::model::AppView { exit: true, ..old(self)@ })
                &&& action is Nothing
            },
    {
        match event {
            ChannelEvent::Toggle => match self.handle_toggle(toplevels) {
                Ok(requests) => ChannelAction::Reply { requests, result: Ok(()) },
                Err(error) => ChannelAction::Reply { requests: Vec::new(), result: Err(error) },
            },
            ChannelEvent::TogglePersistent => ChannelAction::Persistent(
                self.handle_toggle_persistent(),
            ),
            ChannelEvent::Closed => {
                self.close();
                ChannelAction::Nothing
            },
        }
    }
}

/// What the thread has done and how far it has come, if it learned `news` after one action
/// and the next: whether any window is listed, and whether the request channel was closed.
pub open spec fn course(news: Seq<(bool, bool)>) -> (Seq<LoopAction>, LoopPhase)
    decreases news.len(),
{
    if news.len() == 0 {
        (seq![LoopAction::WarmUp], first_phase())
    } else {
        let (done, phase) = course(news.drop_last());
        let (windows_listed, exit) = news.last();
        (
            done.push(next_action(phase, windows_listed, exit)),
            next_phase(phase, windows_listed, exit),
        )
    }
}

/// How often `action` was done.
pub open spec fn times(done: Seq<LoopAction>, action: LoopAction) -> nat {
    done.to_multiset().count(action)
}

/// The warm-up takes one to three rounds; the thread is announced as ready at most once, never
/// before the warm-up is over, and always before it does its work or ends.
pub proof fn law_ready_once_after_warm_up(news: Seq<(bool, bool)>)
    ensures
        ({
            let (done, phase) = course(news);
            &&& 1 <= times(done, LoopAction::WarmUp) <= WARMUP_ROUNDS
            &&& times(done, LoopAction::AnnounceReady) == if phase is WarmingUp {
                0nat
            } else {
                1nat
            }
            &&& phase is WarmingUp ==> times(done, LoopAction::Dispatch) == 0 && times(
                done,
                LoopAction::Stop,
            ) == 0
            &&& phase matches LoopPhase::WarmingUp { rounds_left } ==> times(
                done,
                LoopAction::WarmUp,
            ) + rounds_left == WARMUP_ROUNDS
            &&& news.len() >= WARMUP_ROUNDS ==> phase !is WarmingUp
        }),
    decreases news.len(),
{
    broadcast use vstd::seq_lib::group_to_multiset_ensures;
    broadcast use vstd::multiset::group_multiset_axioms;

    lemma_warm_up_length(news);
    if news.len() == 0 {
        let done = seq![LoopAction::WarmUp];
        assert(done =~= Seq::<LoopAction>::empty().push(LoopAction::WarmUp));
    } else {
        law_ready_once_after_warm_up(news.drop_last());
    }
}

proof fn lemma_warm_up_length(news: Seq<(bool, bool)>)
    ensures
        course(news).1 matches LoopPhase::WarmingUp { rounds_left } ==> rounds_left + news.len()
            == WARMUP_ROUNDS - 1,
    decreases news.len(),
{
    if news.len() > 0 {
        lemma_warm_up_length(news.drop_last());
    }
}

/// Once ready, the thread goes on until the request channel is closed, and then ends for good.
pub proof fn law_runs_until_closed(news: Seq<(bool, bool)>, windows_listed: bool, exit: bool)
    requires
        course(news).1 !is WarmingUp,
    ensures
        ({
            let (done, phase) = course(news.push((windows_listed, exit)));
            done.last() == if exit || course(news).1 is Stopped {
                LoopAction::Stop
            } else {
                LoopAction::Dispatch
            } && (done.last() is Stop <==> phase is Stopped)
        }),
{
    assert(news.push((windows_listed, exit)).drop_last() =~= news);
}

/// Each round of the warm-up is the last one if windows are listed by then or no round is left;
/// else there is one round less left. Closing the request channel does not cut it short.
pub proof fn law_warm_up_counts_down(rounds_left: u8, windows_listed: bool, exit: bool)
    ensures
        ({
            let phase = LoopPhase::WarmingUp { rounds_left };
            let action = next_action(phase, windows_listed, exit);
            let next = next_phase(phase, windows_listed, exit);
            if windows_listed || rounds_left == 0 {
                action is AnnounceReady && next is Announcing
            } else {
                action is WarmUp && next is WarmingUp && next->rounds_left + 1 == rounds_left
            }
        }),
{
}

/// After the warm-up the thread works on until the request channel is closed, whatever windows
/// are listed, and once it has come to its end it stays there.
pub proof fn law_works_until_closed(phase: LoopPhase, windows_listed: bool, exit: bool)
    requires
        phase !is WarmingUp,
    ensures
        ({
            let action = next_action(phase, windows_listed, exit);
            let next = next_phase(phase, windows_listed, exit);
            if exit || phase is Stopped {
                action is Stop && next is Stopped
            } else {
                action is Dispatch && next is Running
            }
        }),
{
}

/// The warm-up begins with one round and takes up to two more, as long as no window is listed;
/// then the thread announces that it is ready.
pub proof fn law_warm_up_takes_three_rounds_at_most(
    news: Seq<(bool, bool)>,
    windows_listed: bool,
    exit: bool,
)
    requires
        course(news).1 is WarmingUp,
    ensures
        news.len() == 0 ==> course(news).0 == seq![LoopAction::WarmUp],
        news.len() <= 2,
        course(news.push((windows_listed, exit))).0 == course(news).0.push(
            if windows_listed || news.len() == 2 {
                LoopAction::AnnounceReady
            } else {
                LoopAction::WarmUp
            },
        ),
{
    lemma_warm_up_length(news);
    assert(news.push((windows_listed, exit)).drop_last() =~= news);
}

/// The warm-up is over after three tenths of a second, long before anyone who waits for the
/// thread, for two seconds, gives up.
pub proof fn law_warm_up_is_over_in_time()
    ensures
        WARMUP_ROUNDS * WARMUP_ROUND_MILLIS == 300,
        REPLY_TIMEOUT_SECONDS * 1000 == 2000,
{
}

} // verus!
