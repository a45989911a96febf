//! The lifecycle of one pipeline instance, as a function from state and
//! event to next state and action.
//!
//! The caller performs each action and reports what happened next as an
//! event: it takes blocks from the delivery queue, reads the user
//! interface, carries control updates to the noise stage and waits for
//! their acknowledgement, and stops the producer.

use crate::float32::{equal_numbers, same_number, tenth_of, tenth_of_level};
use crate::scalar::TaggedScalar;
use vstd::prelude::*;

verus! {

/// Where the controller stands.
#[derive(Debug, Clone, Copy, PartialEq, Eq, Structural)]
pub enum Phase {
    /// No instance has been started yet.
    Idle,
    /// An instance is being built.
    Starting,
    /// The instance delivers blocks.
    Running,
    /// The instance has been told to stop and has not confirmed it.
    Draining,
    /// The instance is gone.
    Terminated,
}

/// What the user interface shows at one moment.
#[derive(Debug, Clone, Copy, PartialEq, Eq, Structural)]
pub struct UiState {
    /// Whether plotting is switched on.
    pub enabled: bool,
    /// The raw noise level set by the user: ten times the gain.
    pub noise_level: i32,
}

/// The gain that the interface asks for, as a binary32 bit pattern: a
/// tenth of the noise level.
pub open spec fn requested_gain(ui: UiState) -> u32 {
    tenth_of(ui.noise_level as int)
}

/// What happened.
#[derive(Debug, Clone, Copy)]
pub enum Event {
    /// The user flipped the plotting switch; the interface now shows this.
    Toggled(UiState),
    /// The producer, its control port and the queue are built, and blocks
    /// are about to be taken.
    Constructed,
    /// A block was taken from the queue. With it comes what the interface
    /// shows, or `None` if the interface is gone.
    Block(Option<UiState>),
    /// The queue has ended: the producer is gone.
    ChannelClosed,
    /// The pending control update was acknowledged.
    Acked,
    /// The producer has stopped.
    Stopped,
}

/// What to do.
#[derive(Debug, Clone, Copy, PartialEq, Eq, Structural)]
pub enum Action {
    /// Nothing.
    Nothing,
    /// Build an instance whose noise stage starts with this gain.
    Spawn { gain: u32 },
    /// Hand the block to the renderer.
    Render,
    /// Hand the block to the renderer, then send this control update and
    /// wait for its acknowledgement.
    RenderAndUpdate { value: TaggedScalar },
    /// Drop the block, stop the producer and wait until it has stopped.
    Terminate,
}

/// The controller of one pipeline at a time.
#[derive(Debug, Clone, Copy, PartialEq, Eq, Structural)]
pub struct Controller {
    /// The current phase.
    pub phase: Phase,
    /// The gain that the running noise stage was last given.
    pub last_gain: u32,
    /// Whether a control update is on its way.
    pub awaiting_ack: bool,
}

/// The controller as it is after the producer was told to stop.
pub open spec fn draining(c: Controller) -> Controller {
    Controller { phase: Phase::Draining, last_gain: c.last_gain, awaiting_ack: false }
}

/// The transition function.
pub open spec fn next(c: Controller, event: Event) -> (Controller, Action) {
    match c.phase {
        Phase::Idle | Phase::Terminated => match event {
            Event::Toggled(ui) => if ui.enabled {
                (
                    Controller {
                        phase: Phase::Starting,
                        last_gain: requested_gain(ui),
                        awaiting_ack: false,
                    },
                    Action::Spawn { gain: requested_gain(ui) },
                )
            } else {
                (c, Action::Nothing)
            },
            _ => (c, Action::Nothing),
        },
        Phase::Starting => match event {
            Event::Constructed => (
                Controller { phase: Phase::Running, last_gain: c.last_gain, awaiting_ack: false },
                Action::Nothing,
            ),
            _ => (c, Action::Nothing),
        },
        Phase::Running => match event {
            Event::Block(Some(ui)) => if !ui.enabled {
                (draining(c), Action::Terminate)
            } else if c.awaiting_ack || equal_numbers(requested_gain(ui), c.last_gain) {
                (c, Action::Render)
            } else {
                (
                    Controller {
                        phase: Phase::Running,
                        last_gain: requested_gain(ui),
                        awaiting_ack: true,
                    },
                    Action::RenderAndUpdate { value: TaggedScalar::F32(requested_gain(ui)) },
                )
            },
            Event::Block(None) => (draining(c), Action::Terminate),
            Event::ChannelClosed => (draining(c), Action::Terminate),
            Event::Acked => (
                Controller { phase: Phase::Running, last_gain: c.last_gain, awaiting_ack: false },
                Action::Nothing,
            ),
            _ => (c, Action::Nothing),
        },
        Phase::Draining => match event {
            Event::Stopped => (
                Controller {
                    phase: Phase::Terminated,
                    last_gain: c.last_gain,
                    awaiting_ack: false,
                },
                Action::Nothing,
            ),
            _ => (c, Action::Nothing),
        },
    }
}

/// The controller after a sequence of events.
pub open spec fn run(c: Controller, events: Seq<Event>) -> Controller
    decreases events.len(),
{
    if events.len() == 0 {
        c
    } else {
        next(run(c, events.drop_last()), events.last()).0
    }
}

/// The action taken on event `at` of a sequence of events.
pub open spec fn action_at(c: Controller, events: Seq<Event>, at: int) -> Action
    recommends
        0 <= at < events.len(),
{
    next(run(c, events.take(at)), events[at]).1
}

/// A control update is sent only by a running instance that has none
/// pending, and leaves it running.
pub proof fn lemma_update_only_while_running(c: Controller, event: Event)
    requires
        next(c, event).1 is RenderAndUpdate,
    ensures
        c.phase is Running,
        !c.awaiting_ack,
        next(c, event).0.phase is Running,
        next(c, event).0.awaiting_ack,
{
}

/// A block is rendered only by a running instance.
pub proof fn lemma_render_only_while_running(c: Controller, event: Event)
    requires
        next(c, event).1 is Render || next(c, event).1 is RenderAndUpdate,
    ensures
        c.phase is Running,
        event matches Event::Block(Some(ui)) && ui.enabled,
{
}

/// An instance is built only when there is none: before the first, or
/// after the last one has terminated.
pub proof fn lemma_spawn_only_without_instance(c: Controller, event: Event)
    requires
        next(c, event).1 is Spawn,
    ensures
        c.phase is Idle || c.phase is Terminated,
        next(c, event).0.phase is Starting,
{
}

/// A running instance that meets a disabled interface, a vanished
/// interface or the end of the queue begins to drain at once.
pub proof fn lemma_disable_begins_draining(c: Controller, event: Event)
    requires
        c.phase is Running,
        event is ChannelClosed || (event matches Event::Block(ui) && (ui matches Some(s)
            ==> !s.enabled)),
    ensures
        next(c, event) == (draining(c), Action::Terminate),
{
}

/// While an instance drains and has not reported that it stopped, it stays
/// draining.
pub proof fn lemma_draining_persists(c: Controller, events: Seq<Event>)
    requires
        c.phase is Draining,
        forall|i: int| 0 <= i < events.len() ==> !(events[i] is Stopped),
    ensures
        run(c, events) == c,
    decreases events.len(),
{
    if events.len() > 0 {
        let front = events.drop_last();
        assert forall|i: int| 0 <= i < front.len() implies !(front[i] is Stopped) by {
            assert(front[i] == events[i]);
        }
        lemma_draining_persists(c, front);
    }
}

/// Once draining has begun, nothing is done at all until the instance has
/// reported that it stopped: no control update, no rendering, and no new
/// instance.
pub proof fn lemma_quiet_until_stopped(c: Controller, events: Seq<Event>, at: int)
    requires
        c.phase is Draining,
        0 <= at < events.len(),
        forall|i: int| 0 <= i < at ==> !(events[i] is Stopped),
    ensures
        action_at(c, events, at) is Nothing,
        !(events[at] is Stopped) ==> run(c, events.take(at + 1)).phase is Draining,
        events[at] is Stopped ==> run(c, events.take(at + 1)).phase is Terminated,
{
    let before = events.take(at);
    assert forall|i: int| 0 <= i < before.len() implies !(before[i] is Stopped) by {
        assert(before[i] == events[i]);
    }
    lemma_draining_persists(c, before);
    let upto = events.take(at + 1);
    assert(upto.drop_last() =~= before);
    assert(upto.last() == events[at]);
}

/// Running through two sequences of events, one after the other, is
/// running through their concatenation.
pub proof fn lemma_run_split(c: Controller, first: Seq<Event>, second: Seq<Event>)
    ensures
        run(c, first + second) == run(run(c, first), second),
    decreases second.len(),
{
    if second.len() == 0 {
        assert(first + second =~= first);
    } else {
        assert((first + second).drop_last() =~= first + second.drop_last());
        assert((first + second).last() == second.last());
        lemma_run_split(c, first, second.drop_last());
    }
}

/// Whether an event tells a running instance to stop: the interface is
/// disabled or gone, or the queue has ended.
pub open spec fn ends_instance(event: Event) -> bool {
    event is ChannelClosed || (event matches Event::Block(ui) && (ui matches Some(s)
        ==> !s.enabled))
}

/// In any history: when a running instance is told to stop at one event,
/// it is terminated then, and at no later event is anything done (no
/// control update, no rendering, no new instance) unless the instance has
/// reported in between that it stopped.
pub proof fn lemma_nothing_after_disable(c: Controller, events: Seq<Event>, at: int, later: int)
    requires
        0 <= at < later < events.len(),
        run(c, events.take(at)).phase is Running,
        ends_instance(events[at]),
        forall|k: int| at < k < later ==> !(events[k] is Stopped),
    ensures
        action_at(c, events, at) is Terminate,
        run(c, events.take(at + 1)).phase is Draining,
        action_at(c, events, later) is Nothing,
{
    let head = events.take(at + 1);
    assert(head.drop_last() =~= events.take(at));
    assert(head.last() == events[at]);
    let d = run(c, head);
    assert(d.phase is Draining);
    let between = events.subrange(at + 1, later);
    assert(events.take(later) =~= head + between);
    lemma_run_split(c, head, between);
    lemma_draining_persists(d, between);
}

impl Controller {
    /// A controller that has not started anything.
    pub fn new() -> (c: Controller)
        ensures
            c == (Controller { phase: Phase::Idle, last_gain: 0, awaiting_ack: false }),
    {
        Controller { phase: Phase::Idle, last_gain: 0, awaiting_ack: false }
    }

    /// Takes one event, moves to the next state and says what to do.
    pub fn step(&mut self, event: Event) -> (action: Action)
        ensures
            (*final(self), action) == next(*old(self), event),
    {
        match self.phase {
            Phase::Idle | Phase::Terminated => match event {
                Event::Toggled(ui) => {
                    if ui.enabled {
                        let gain = tenth_of_level(ui.noise_level);
                        self.phase = Phase::Starting;
                        self.last_gain = gain;
                        self.awaiting_ack = false;
                        Action::Spawn { gain }
                    } else {
                        Action::Nothing
                    }
                },
                _ => Action::Nothing,
            },
            Phase::Starting => match event {
                Event::Constructed => {
                    self.phase = Phase::Running;
                    self.awaiting_ack = false;
                    Action::Nothing
                },
                _ => Action::Nothing,
            },
            Phase::Running => match event {
                Event::Block(Some(ui)) => {
                    if !ui.enabled {
                        self.phase = Phase::Draining;
                        self.awaiting_ack = false;
                        Action::Terminate
                    } else if self.awaiting_ack {
                        Action::Render
                    } else {
                        let gain = tenth_of_level(ui.noise_level);
                        if same_number(gain, self.last_gain) {
                            Action::Render
                        } else {
                            self.last_gain = gain;
                            self.awaiting_ack = true;
                            Action::RenderAndUpdate { value: TaggedScalar::F32(gain) }
                        }
                    }
                },
                Event::Block(None) | Event::ChannelClosed => {
                    self.phase = Phase::Draining;
                    self.awaiting_ack = false;
                    Action::Terminate
                },
                Event::Acked => {
                    self.awaiting_ack = false;
                    Action::Nothing
                },
                _ => Action::Nothing,
            },
            Phase::Draining => match event {
                Event::Stopped => {
                    self.phase = Phase::Terminated;
                    self.awaiting_ack = false;
                    Action::Nothing
                },
                _ => Action::Nothing,
            },
        }
    }
}

} // verus!
