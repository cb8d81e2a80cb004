use rata_tea::{Action, Effect, LoopEvent, LoopState, Tick, Warning};

type Ev = LoopEvent<&'static str, char>;

#[test]
fn start_builds_subscriptions_then_starts_the_initial_command() {
    let (state, effects) = LoopState::start::<&'static str, char>();
    assert!(state.dirty);
    assert!(state.running);
    assert_eq!(effects.len(), 2);
    assert!(matches!(effects[0], Effect::RebuildSubscriptions));
    assert!(matches!(effects[1], Effect::SpawnCommands));
}

#[test]
fn a_message_updates_rebuilds_and_spawns() {
    let (mut state, _) = LoopState::start::<&'static str, char>();
    state.dirty = false;
    let effects = state.step(Ev::Action(Action::Msg("inc")));
    assert!(state.dirty);
    assert!(state.running);
    assert_eq!(effects.len(), 3);
    assert!(matches!(effects[0], Effect::Update("inc")));
    assert!(matches!(effects[1], Effect::RebuildSubscriptions));
    assert!(matches!(effects[2], Effect::SpawnCommands));
}

#[test]
fn quit_stops_the_loop() {
    let (mut state, _) = LoopState::start::<&'static str, char>();
    let effects = state.step(Ev::Action(Action::Quit));
    assert!(!state.running);
    assert_eq!(effects.len(), 1);
    assert!(matches!(effects[0], Effect::Stop));
}

#[test]
fn ticks_draw_only_when_dirty() {
    let (mut state, _) = LoopState::start::<&'static str, char>();
    let first = state.step(Ev::Tick);
    assert!(matches!(first[..], [Effect::Draw, Effect::PublishTick]));
    let second = state.step(Ev::Tick);
    assert!(matches!(second[..], [Effect::PublishTick]));
    state.step(Ev::Action(Action::Msg("x")));
    state.step(Ev::Terminal('k'));
    state.step(Ev::ChannelClosed);
    let third = state.step(Ev::Tick);
    assert!(matches!(third[..], [Effect::Draw, Effect::PublishTick]));
}

#[test]
fn terminal_events_are_published_and_errors_warned() {
    let (mut state, _) = LoopState::start::<&'static str, char>();
    let published = state.step(Ev::Terminal('q'));
    assert!(matches!(published[..], [Effect::Publish('q')]));
    let warned = state.step(Ev::TerminalError);
    assert!(matches!(warned[..], [Effect::Warn(Warning::TerminalRead)]));
    let closed = state.step(Ev::ChannelClosed);
    assert!(matches!(closed[..], [Effect::Warn(Warning::MsgChannelClosed)]));
    assert!(state.dirty);
    assert!(state.running);
}

#[test]
fn tick_is_a_plain_value() {
    let tick = Tick;
    let copy = tick;
    assert_eq!(format!("{:?}", copy), "Tick");
}
