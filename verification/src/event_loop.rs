//! The decisions of the application loop: what the runner does with each
//! event it receives.
use vstd::prelude::*;

verus! {

/// What a message becomes before it reaches the application.
pub enum Action<Msg> {
    /// Hand the message to `update`.
    Msg(Msg),
    /// Leave the application loop.
    Quit,
}

/// The event that the frame timer publishes on each tick.
#[derive(Debug, Clone, Copy)]
pub struct Tick;

/// What the loop can be woken by.
pub enum LoopEvent<Msg, E> {
    /// A message arrived and was turned into an action.
    Action(Action<Msg>),
    /// The message channel reported that it is closed.
    ChannelClosed,
    /// The frame timer ticked.
    Tick,
    /// The terminal reported an event.
    Terminal(E),
    /// Reading the terminal failed.
    TerminalError,
}

/// What is logged when something goes wrong without stopping the loop.
#[derive(Debug, Clone, Copy, PartialEq, Eq, Structural)]
pub enum Warning {
    /// The message channel was closed unexpectedly.
    MsgChannelClosed,
    /// An error came while reading a terminal event.
    TerminalRead,
}

/// What the runner carries out, in the order given.
pub enum Effect<Msg, E> {
    /// Hand the message to `update`; keep the command it returns.
    Update(Msg),
    /// Rebuild the running subscriptions from those of the current model.
    RebuildSubscriptions,
    /// Start the commands that were kept.
    SpawnCommands,
    /// Draw the current model.
    Draw,
    /// Publish a [`Tick`] on the event bus.
    PublishTick,
    /// Publish a terminal event on the event bus.
    Publish(E),
    /// Log a warning.
    Warn(Warning),
    /// Leave the loop and restore the terminal.
    Stop,
}

/// The state of the application loop between events.
pub struct LoopState {
    /// Whether the model changed since it was last drawn.
    pub dirty: bool,
    /// Whether the loop still runs.
    pub running: bool,
}

/// What one event does to the loop: the new `(dirty, running)` flags and the
/// effects, in order.
pub open spec fn step_spec<Msg, E>(dirty: bool, event: LoopEvent<Msg, E>) -> (
    bool,
    bool,
    Seq<Effect<Msg, E>>,
) {
    match event {
        LoopEvent::Action(Action::Msg(msg)) => (
            true,
            true,
            seq![Effect::Update(msg), Effect::RebuildSubscriptions, Effect::SpawnCommands],
        ),
        LoopEvent::Action(Action::Quit) => (dirty, false, seq![Effect::Stop]),
        LoopEvent::ChannelClosed => (dirty, true, seq![Effect::Warn(Warning::MsgChannelClosed)]),
        LoopEvent::Tick => if dirty {
            (false, true, seq![Effect::Draw, Effect::PublishTick])
        } else {
            (false, true, seq![Effect::PublishTick])
        },
        LoopEvent::Terminal(e) => (dirty, true, seq![Effect::Publish(e)]),
        LoopEvent::TerminalError => (dirty, true, seq![Effect::Warn(Warning::TerminalRead)]),
    }
}

impl LoopState {
    /// The loop before its first event: the initial model is not drawn yet;
    /// the subscriptions of the initial model are built and the initial
    /// command started.
    pub fn start<Msg, E>() -> (r: (LoopState, Vec<Effect<Msg, E>>))
        ensures
            r.0.dirty,
            r.0.running,
            r.1@ == seq![Effect::<Msg, E>::RebuildSubscriptions, Effect::<Msg, E>::SpawnCommands],
    {
        let mut effects = Vec::new();
        effects.push(Effect::RebuildSubscriptions);
        effects.push(Effect::SpawnCommands);
        (LoopState { dirty: true, running: true }, effects)
    }

    /// Handles one event.
    pub fn step<Msg, E>(&mut self, event: LoopEvent<Msg, E>) -> (r: Vec<Effect<Msg, E>>)
        requires
            old(self).running,
        ensures
            (final(self).dirty, final(self).running, r@) == step_spec(old(self).dirty, event),
    {
        let mut effects = Vec::new();
        match event {
            LoopEvent::Action(Action::Msg(msg)) => {
                effects.push(Effect::Update(msg));
                effects.push(Effect::RebuildSubscriptions);
                effects.push(Effect::SpawnCommands);
                self.dirty = true;
            },
            LoopEvent::Action(Action::Quit) => {
                effects.push(Effect::Stop);
                self.running = false;
            },
            LoopEvent::ChannelClosed => {
                effects.push(Effect::Warn(Warning::MsgChannelClosed));
            },
            LoopEvent::Tick => {
                if self.dirty {
                    effects.push(Effect::Draw);
                    self.dirty = false;
                }
                effects.push(Effect::PublishTick);
            },
            LoopEvent::Terminal(e) => {
                effects.push(Effect::Publish(e));
            },
            LoopEvent::TerminalError => {
                effects.push(Effect::Warn(Warning::TerminalRead));
            },
        }
        proof {
            let s = step_spec(old(self).dirty, event);
            assert(effects@ =~= s.2);
        }
        effects
    }
}

} // verus!
