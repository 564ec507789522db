use evsieve::capability::{Capabilities, CodeCapability, InputCapabilities};
use evsieve::delay::Delay;
use evsieve::event::{Event, Namespace, EV_KEY, EV_SYN, SYN_REPORT};
use evsieve::hook::{Hook, HookAction};
use evsieve::key::{Key, Target, ValueRule};
use evsieve::loopback::Delay as Wait;
use evsieve::mapping::{EventMap, Toggle, ToggleMode};
use evsieve::merge::Merge;
use evsieve::output::OutputCommand;
use evsieve::predevice::PreOutputDevice;
use evsieve::print::EventPrinter;
use evsieve::range::Range;
use evsieve::state::{Effect, PrintFormat, State, ToggleState};
use evsieve::stream::{run, syn, wakeup, Setup, StreamEntry};
use evsieve::withhold::Withhold;

const KEY_A: u16 = 30;
const KEY_B: u16 = 48;
const KEY_C: u16 = 46;
const KEY_LEFTCTRL: u16 = 29;
const KEYBOARD: u32 = 1;

fn key(code: u16, namespace: Namespace) -> Key {
    Key { ev_type: Some(EV_KEY), code: Some(code), value: Range::everything(), domain: None, namespace }
}

fn pressed(code: u16, namespace: Namespace) -> Key {
    Key { ev_type: Some(EV_KEY), code: Some(code), value: Range::new(1, i32::MAX), domain: None, namespace }
}

fn to_code(code: u16, namespace: Namespace) -> Target {
    Target {
        ev_type: Some(EV_KEY),
        code: Some(code),
        value: ValueRule::Keep,
        domain: None,
        namespace: Some(namespace),
    }
}

fn input(code: u16, value: i32, previous_value: i32) -> Event {
    Event::new(EV_KEY, code, value, previous_value, KEYBOARD, Namespace::Input)
}

fn report() -> Event {
    Event::new(EV_SYN, SYN_REPORT, 0, 0, KEYBOARD, Namespace::Input)
}

fn enter() -> StreamEntry {
    StreamEntry::EventMap(EventMap::new(Key::any(Namespace::Input), vec![Target::to_namespace(Namespace::User)]))
}

fn leave() -> StreamEntry {
    StreamEntry::EventMap(EventMap::new(Key::any(Namespace::User), vec![Target::to_namespace(Namespace::Output)]))
}

fn keyboard_caps() -> InputCapabilities {
    let mut caps = InputCapabilities::new();
    let codes = vec![
        CodeCapability { ev_type: EV_KEY, code: KEY_A, abs_info: None },
        CodeCapability { ev_type: EV_KEY, code: KEY_C, abs_info: None },
        CodeCapability { ev_type: EV_KEY, code: KEY_LEFTCTRL, abs_info: None },
    ];
    caps.insert(KEYBOARD, Capabilities { codes, rep_info: None });
    caps
}

fn setup_with(stream: Vec<StreamEntry>, state: State) -> Setup {
    let mut setup =
        Setup::create(stream, vec![PreOutputDevice { domain: KEYBOARD }], state, keyboard_caps()).unwrap();
    assert_eq!(setup.take_output_commands(), vec![OutputCommand::Create { device: 0 }]);
    setup
}

fn written(commands: &[OutputCommand]) -> Vec<(u16, i32)> {
    let mut result = Vec::new();
    for command in commands {
        if let OutputCommand::Write { event, .. } = command {
            result.push((event.code, event.value));
        }
    }
    result
}

#[test]
fn staged_events_are_in_the_output_namespace() {
    let mut setup = setup_with(vec![enter(), leave()], State::new());
    run(&mut setup, input(KEY_A, 1, 0));
    run(&mut setup, Event::new(EV_KEY, KEY_C, 1, 0, KEYBOARD, Namespace::User));
    assert_eq!(setup.staged_events().len(), 2);
    for event in setup.staged_events() {
        assert_eq!(event.namespace, Namespace::Output);
    }
}

#[test]
fn an_event_passes_the_runner_once() {
    let printer = StreamEntry::Print(EventPrinter::new(vec![Key::any(Namespace::User)], PrintFormat::Default));
    let mut setup = setup_with(vec![enter(), printer, leave()], State::new());
    run(&mut setup, input(KEY_A, 1, 0));
    let expected = Event::new(EV_KEY, KEY_A, 1, 0, KEYBOARD, Namespace::Output);
    assert_eq!(setup.staged_events(), &vec![expected]);
    let shown = Event::new(EV_KEY, KEY_A, 1, 0, KEYBOARD, Namespace::User);
    assert_eq!(setup.take_effects(), vec![Effect::Print { event: shown, format: PrintFormat::Default }]);
}

#[test]
fn a_blocking_map_drops_its_events() {
    let block = StreamEntry::EventMap(EventMap::block(key(KEY_A, Namespace::User)));
    let mut setup = setup_with(vec![enter(), block, leave()], State::new());
    run(&mut setup, input(KEY_A, 1, 0));
    run(&mut setup, input(KEY_C, 1, 0));
    assert_eq!(setup.staged_events().len(), 1);
    assert_eq!(setup.staged_events()[0].code, KEY_C);
}

#[test]
fn syn_empties_the_stage_and_ends_each_report_once() {
    let outputs = vec![PreOutputDevice { domain: KEYBOARD }, PreOutputDevice { domain: 7 }];
    let mut setup = Setup::create(vec![enter(), leave()], outputs, State::new(), keyboard_caps()).unwrap();
    setup.take_output_commands();
    run(&mut setup, input(KEY_A, 1, 0));
    syn(&mut setup);
    assert!(setup.staged_events().is_empty());
    let written_event = Event::new(EV_KEY, KEY_A, 1, 0, KEYBOARD, Namespace::Output);
    assert_eq!(
        setup.take_output_commands(),
        vec![
            OutputCommand::Write { device: 0, event: written_event },
            OutputCommand::Syn { device: 0 },
            OutputCommand::Syn { device: 1 },
        ]
    );
}

#[test]
fn an_event_without_a_device_is_written_nowhere() {
    let mut setup = setup_with(vec![], State::new());
    run(&mut setup, Event::new(EV_KEY, KEY_A, 1, 0, 99, Namespace::Output));
    assert_eq!(setup.staged_events().len(), 1);
    syn(&mut setup);
    assert_eq!(setup.take_output_commands(), vec![OutputCommand::Syn { device: 0 }]);
}

#[test]
fn two_outputs_on_one_domain_are_refused() {
    let outputs = vec![PreOutputDevice { domain: 4 }, PreOutputDevice { domain: 5 }, PreOutputDevice { domain: 4 }];
    let result = Setup::create(vec![], outputs, State::new(), InputCapabilities::new());
    match result {
        Ok(_) => panic!("two devices on one domain"),
        Err(error) => {
            assert_eq!(error.kind(), evsieve::error::ErrorKind::DuplicateOutputDomain { domain: 4 });
            assert!(error.context().is_empty());
        },
    }
}

#[test]
fn empty_stream_drops_input_and_passes_output() {
    let mut setup = setup_with(vec![], State::new());
    run(&mut setup, input(KEY_A, 1, 0));
    assert!(setup.staged_events().is_empty());
    let stamped = Event::new(EV_KEY, KEY_A, 1, 0, KEYBOARD, Namespace::Output);
    run(&mut setup, stamped);
    assert_eq!(setup.staged_events(), &vec![stamped]);
}

#[test]
fn identity_map_changes_the_namespace_only() {
    let identity = StreamEntry::EventMap(EventMap::new(Key::any(Namespace::User), vec![Target::identity()]));
    let mut setup = setup_with(vec![enter(), identity, leave()], State::new());
    let event = Event::new(EV_KEY, KEY_A, 2, 1, KEYBOARD, Namespace::Input);
    run(&mut setup, event);
    assert_eq!(setup.staged_events(), &vec![Event { namespace: Namespace::Output, ..event }]);
}

#[test]
fn key_remap() {
    let remap = StreamEntry::EventMap(
        EventMap::new(key(KEY_A, Namespace::Input), vec![to_code(KEY_B, Namespace::Output)]),
    );
    let mut setup = setup_with(vec![remap], State::new());
    run(&mut setup, input(KEY_A, 1, 0));
    run(&mut setup, report());
    run(&mut setup, input(KEY_A, 0, 1));
    run(&mut setup, report());
    assert_eq!(
        setup.take_output_commands(),
        vec![
            OutputCommand::Write {
                device: 0,
                event: Event::new(EV_KEY, KEY_B, 1, 0, KEYBOARD, Namespace::Output),
            },
            OutputCommand::Syn { device: 0 },
            OutputCommand::Write {
                device: 0,
                event: Event::new(EV_KEY, KEY_B, 0, 1, KEYBOARD, Namespace::Output),
            },
            OutputCommand::Syn { device: 0 },
        ]
    );
}

#[test]
fn delay_holds_events_for_its_period() {
    let delay = StreamEntry::Delay(Delay::new(vec![Key::any(Namespace::User)], 50_000));
    let mut setup = setup_with(vec![enter(), delay, leave()], State::new());
    setup.advance_clock(0);
    assert_eq!(setup.time_until_next_wakeup(), Wait::Never);
    run(&mut setup, input(KEY_A, 1, 0));
    run(&mut setup, report());
    assert_eq!(setup.time_until_next_wakeup(), Wait::At(50_000));
    assert_eq!(setup.take_output_commands(), vec![OutputCommand::Syn { device: 0 }]);

    setup.advance_clock(49_999);
    assert_eq!(setup.time_until_next_wakeup(), Wait::At(1));
    wakeup(&mut setup);
    assert!(setup.take_output_commands().is_empty());

    setup.advance_clock(50_000);
    assert_eq!(setup.time_until_next_wakeup(), Wait::At(0));
    wakeup(&mut setup);
    assert_eq!(
        setup.take_output_commands(),
        vec![
            OutputCommand::Write {
                device: 0,
                event: Event::new(EV_KEY, KEY_A, 1, 0, KEYBOARD, Namespace::Output),
            },
            OutputCommand::Syn { device: 0 },
        ]
    );
    assert_eq!(setup.time_until_next_wakeup(), Wait::Never);
}

#[test]
fn delay_of_zero_passes_events_at_once() {
    let delay = StreamEntry::Delay(Delay::new(vec![Key::any(Namespace::User)], 0));
    let mut setup = setup_with(vec![enter(), delay, leave()], State::new());
    run(&mut setup, input(KEY_A, 1, 0));
    assert_eq!(setup.staged_events().len(), 1);
    assert_eq!(setup.time_until_next_wakeup(), Wait::Never);
}

#[test]
fn delay_at_the_end_of_the_clock_passes_events_at_once() {
    let delay = StreamEntry::Delay(Delay::new(vec![Key::any(Namespace::User)], 10));
    let mut setup = setup_with(vec![enter(), delay, leave()], State::new());
    setup.advance_clock(u64::MAX - 5);
    run(&mut setup, input(KEY_A, 1, 0));
    assert_eq!(setup.staged_events().len(), 1);
    assert_eq!(setup.time_until_next_wakeup(), Wait::Never);
}

#[test]
fn wakeups_fire_in_the_order_of_their_instants() {
    let slow = StreamEntry::Delay(Delay::new(vec![key(KEY_A, Namespace::User)], 300));
    let fast = StreamEntry::Delay(Delay::new(vec![key(KEY_C, Namespace::User)], 100));
    let mut setup = setup_with(vec![enter(), slow, fast, leave()], State::new());
    setup.advance_clock(1_000);
    run(&mut setup, input(KEY_A, 1, 0));
    setup.advance_clock(1_050);
    run(&mut setup, input(KEY_C, 1, 0));
    assert_eq!(setup.time_until_next_wakeup(), Wait::At(100));

    setup.advance_clock(1_149);
    wakeup(&mut setup);
    assert_eq!(written(&setup.take_output_commands()), vec![]);

    setup.advance_clock(2_000);
    wakeup(&mut setup);
    let commands = setup.take_output_commands();
    assert_eq!(written(&commands), vec![(KEY_C, 1), (KEY_A, 1)]);
    // Each wake-up forms a report of its own.
    assert_eq!(commands.len(), 4);
    assert_eq!(commands[1], OutputCommand::Syn { device: 0 });
    assert_eq!(commands[3], OutputCommand::Syn { device: 0 });
}

#[test]
fn a_delay_behind_a_delay_fires_in_the_same_pass_when_overdue() {
    let first = StreamEntry::Delay(Delay::new(vec![Key::any(Namespace::User)], 100));
    let second = StreamEntry::Delay(Delay::new(vec![Key::any(Namespace::User)], 100));
    let mut setup = setup_with(vec![enter(), first, second, leave()], State::new());
    setup.advance_clock(0);
    run(&mut setup, input(KEY_A, 1, 0));
    setup.advance_clock(150);
    wakeup(&mut setup);
    assert_eq!(written(&setup.take_output_commands()), vec![]);
    // The second delay counts from the instant of the first wake-up.
    assert_eq!(setup.time_until_next_wakeup(), Wait::At(50));
    setup.advance_clock(1_000);
    wakeup(&mut setup);
    assert_eq!(written(&setup.take_output_commands()), vec![(KEY_A, 1)]);
}

#[test]
fn the_clock_does_not_run_backwards() {
    let delay = StreamEntry::Delay(Delay::new(vec![Key::any(Namespace::User)], 100));
    let mut setup = setup_with(vec![enter(), delay, leave()], State::new());
    setup.advance_clock(500);
    setup.advance_clock(200);
    run(&mut setup, input(KEY_A, 1, 0));
    assert_eq!(setup.time_until_next_wakeup(), Wait::At(100));
}

fn chord_stream(timeout: u64) -> Vec<StreamEntry> {
    let chord = vec![pressed(KEY_LEFTCTRL, Namespace::User), pressed(KEY_C, Namespace::User)];
    vec![
        enter(),
        StreamEntry::Hook(Hook::new(chord.clone(), vec![HookAction::Spawn { command: 7 }], 0)),
        StreamEntry::Withhold(Withhold::new(chord, timeout)),
        leave(),
    ]
}

#[test]
fn hook_and_withhold_swallow_the_chord() {
    let mut setup = setup_with(chord_stream(100_000), State::new());
    setup.advance_clock(0);
    run(&mut setup, input(KEY_LEFTCTRL, 1, 0));
    run(&mut setup, report());
    setup.advance_clock(40_000);
    run(&mut setup, input(KEY_C, 1, 0));
    run(&mut setup, report());
    assert_eq!(setup.take_effects(), vec![Effect::Spawn { command: 7 }]);
    setup.advance_clock(60_000);
    run(&mut setup, input(KEY_C, 0, 1));
    run(&mut setup, report());
    run(&mut setup, input(KEY_LEFTCTRL, 0, 1));
    run(&mut setup, report());
    setup.advance_clock(500_000);
    wakeup(&mut setup);
    assert_eq!(written(&setup.take_output_commands()), vec![]);
    assert!(setup.take_effects().is_empty());
}

#[test]
fn withhold_releases_in_order_after_its_timeout() {
    let mut setup = setup_with(chord_stream(100_000), State::new());
    setup.advance_clock(0);
    run(&mut setup, input(KEY_LEFTCTRL, 1, 0));
    run(&mut setup, input(KEY_LEFTCTRL, 2, 1));
    run(&mut setup, report());
    assert_eq!(written(&setup.take_output_commands()), vec![]);
    assert_eq!(setup.time_until_next_wakeup(), Wait::At(100_000));
    setup.advance_clock(100_000);
    wakeup(&mut setup);
    assert_eq!(written(&setup.take_output_commands()), vec![(KEY_LEFTCTRL, 1), (KEY_LEFTCTRL, 2)]);
    // Once released, the key passes until it is let go.
    run(&mut setup, input(KEY_LEFTCTRL, 0, 2));
    run(&mut setup, report());
    assert_eq!(written(&setup.take_output_commands()), vec![(KEY_LEFTCTRL, 0)]);
    assert!(setup.take_effects().is_empty());
}

#[test]
fn withhold_releases_when_the_key_is_let_go() {
    let mut setup = setup_with(chord_stream(100_000), State::new());
    setup.advance_clock(0);
    run(&mut setup, input(KEY_LEFTCTRL, 1, 0));
    run(&mut setup, input(KEY_A, 1, 0));
    run(&mut setup, input(KEY_LEFTCTRL, 0, 1));
    run(&mut setup, report());
    assert_eq!(
        written(&setup.take_output_commands()),
        vec![(KEY_A, 1), (KEY_LEFTCTRL, 1), (KEY_LEFTCTRL, 0)]
    );
    // The wake-up that was asked for finds nothing to do.
    setup.advance_clock(200_000);
    wakeup(&mut setup);
    assert_eq!(written(&setup.take_output_commands()), vec![]);
}

#[test]
fn hook_with_a_period_triggers_when_held_long_enough() {
    let hook = Hook::new(vec![pressed(KEY_A, Namespace::User)], vec![HookAction::Spawn { command: 3 }], 1_000);
    let mut setup = setup_with(vec![enter(), StreamEntry::Hook(hook), leave()], State::new());
    setup.advance_clock(0);
    run(&mut setup, input(KEY_A, 1, 0));
    run(&mut setup, input(KEY_A, 0, 1));
    setup.advance_clock(2_000);
    wakeup(&mut setup);
    assert!(setup.take_effects().is_empty());

    run(&mut setup, input(KEY_A, 1, 0));
    assert_eq!(setup.time_until_next_wakeup(), Wait::At(1_000));
    setup.advance_clock(3_000);
    wakeup(&mut setup);
    assert_eq!(setup.take_effects(), vec![Effect::Spawn { command: 3 }]);
    assert_eq!(setup.staged_events().len(), 0);
}

#[test]
fn hook_moves_a_toggle() {
    let mut state = State::new();
    let index = state.add_toggle(2);
    let toggle = Toggle::new(
        key(KEY_A, Namespace::User),
        vec![vec![to_code(KEY_B, Namespace::User)], vec![to_code(KEY_C, Namespace::User)]],
        index,
        ToggleMode::Passive,
    );
    let hook = Hook::new(
        vec![pressed(KEY_LEFTCTRL, Namespace::User)],
        vec![HookAction::AdvanceToggle { index }],
        0,
    );
    let mut setup =
        setup_with(vec![enter(), StreamEntry::Hook(hook), StreamEntry::Toggle(toggle), leave()], state);
    run(&mut setup, input(KEY_A, 1, 0));
    run(&mut setup, input(KEY_LEFTCTRL, 1, 0));
    run(&mut setup, input(KEY_A, 1, 0));
    run(&mut setup, input(KEY_LEFTCTRL, 0, 1));
    run(&mut setup, input(KEY_LEFTCTRL, 1, 0));
    run(&mut setup, input(KEY_A, 1, 0));
    run(&mut setup, report());
    let codes: Vec<u16> = written(&setup.take_output_commands()).iter().map(|w| w.0).collect();
    assert_eq!(codes, vec![KEY_B, KEY_LEFTCTRL, KEY_C, KEY_LEFTCTRL, KEY_LEFTCTRL, KEY_B]);
    assert_eq!(setup.toggle(index), Some(ToggleState { value: 0, size: 2 }));
    assert_eq!(setup.toggle(index + 1), None);
}

#[test]
fn a_cycling_toggle_moves_on_each_press() {
    let mut state = State::new();
    let index = state.add_toggle(2);
    let toggle = Toggle::new(
        key(KEY_A, Namespace::User),
        vec![vec![to_code(KEY_B, Namespace::User)], vec![to_code(KEY_C, Namespace::User)]],
        index,
        ToggleMode::Cycle,
    );
    let mut setup = setup_with(vec![enter(), StreamEntry::Toggle(toggle), leave()], state);
    run(&mut setup, input(KEY_A, 1, 0));
    run(&mut setup, input(KEY_A, 0, 1));
    run(&mut setup, input(KEY_A, 1, 0));
    run(&mut setup, input(KEY_A, 1, 0));
    run(&mut setup, report());
    assert_eq!(
        written(&setup.take_output_commands()),
        vec![(KEY_B, 1), (KEY_C, 0), (KEY_C, 1), (KEY_B, 1)]
    );
}

#[test]
fn merge_makes_one_stream_of_two_keyboards() {
    let merged: u32 = 9;
    let merge = StreamEntry::Merge(Merge::new(vec![key(KEY_A, Namespace::User)], merged));
    let outputs = vec![PreOutputDevice { domain: merged }];
    let mut setup =
        Setup::create(vec![enter(), merge, leave()], outputs, State::new(), InputCapabilities::new()).unwrap();
    setup.take_output_commands();
    let kb1: u32 = 1;
    let kb2: u32 = 2;
    run(&mut setup, Event::new(EV_KEY, KEY_A, 1, 0, kb1, Namespace::Input));
    run(&mut setup, Event::new(EV_KEY, KEY_A, 1, 0, kb2, Namespace::Input));
    run(&mut setup, Event::new(EV_KEY, KEY_A, 0, 1, kb1, Namespace::Input));
    run(&mut setup, Event::new(EV_KEY, KEY_A, 0, 1, kb2, Namespace::Input));
    let expected: Vec<Event> = [(1, 0), (1, 1), (0, 1), (0, 0)]
        .iter()
        .map(|&(value, previous)| Event::new(EV_KEY, KEY_A, value, previous, merged, Namespace::Output))
        .collect();
    assert_eq!(setup.staged_events(), &expected);
}

#[test]
fn merge_remembers_the_device_that_was_active_last() {
    let mut merge = Merge::new(vec![key(KEY_A, Namespace::User)], 9);
    assert_eq!(merge.last_active(EV_KEY, KEY_A), None);
    let mut out = Vec::new();
    merge.apply(&Event::new(EV_KEY, KEY_A, 1, 0, 1, Namespace::User), &mut out);
    merge.apply(&Event::new(EV_KEY, KEY_A, 1, 0, 2, Namespace::User), &mut out);
    merge.apply(&Event::new(EV_KEY, KEY_C, 1, 0, 3, Namespace::User), &mut out);
    assert_eq!(merge.last_active(EV_KEY, KEY_A), Some(2));
    assert_eq!(merge.last_active(EV_KEY, KEY_C), None);
    assert_eq!(out[2], Event::new(EV_KEY, KEY_C, 1, 0, 3, Namespace::User));
}

#[test]
fn a_yielded_event_passes_the_entries_of_the_user() {
    let inject = StreamEntry::EventMap(EventMap::new(
        key(KEY_A, Namespace::User),
        vec![to_code(KEY_B, Namespace::Yielded)],
    ));
    let block = StreamEntry::EventMap(EventMap::block(Key::any(Namespace::User)));
    let deliver = StreamEntry::EventMap(EventMap::new(
        Key::any(Namespace::Yielded),
        vec![Target::to_namespace(Namespace::Output)],
    ));
    let mut setup = setup_with(vec![enter(), inject, block, leave(), deliver], State::new());
    run(&mut setup, input(KEY_A, 1, 0));
    run(&mut setup, input(KEY_C, 1, 0));
    assert_eq!(setup.staged_events(), &vec![Event::new(EV_KEY, KEY_B, 1, 0, KEYBOARD, Namespace::Output)]);
}

#[test]
fn a_delay_takes_no_notice_of_the_token_of_another() {
    let mut delay = Delay::new(vec![Key::any(Namespace::User)], 100);
    let mut handle = evsieve::loopback::Loopback::new().get_handle(0);
    let mut out = Vec::new();
    let event = Event::new(EV_KEY, KEY_A, 1, 0, KEYBOARD, Namespace::User);
    delay.apply_to_all(&vec![event], &mut out, &mut handle, 3);
    assert!(out.is_empty());
    assert_eq!(delay.waiting(), 1);
    let scheduled = handle.scheduled()[0];
    assert_eq!(scheduled.instant, 100);
    assert_eq!(scheduled.token, evsieve::loopback::Token { owner: 3, serial: 0 });
    delay.wakeup(&evsieve::loopback::Token { owner: 4, serial: 0 }, &mut out);
    assert!(out.is_empty());
    assert_eq!(delay.waiting(), 1);
    delay.wakeup(&scheduled.token, &mut out);
    assert_eq!(out, vec![event]);
    assert_eq!(delay.waiting(), 0);
}

#[test]
fn a_withhold_takes_no_notice_of_the_token_of_another() {
    let chord = vec![pressed(KEY_LEFTCTRL, Namespace::User), pressed(KEY_C, Namespace::User)];
    let mut withhold = Withhold::new(chord, 100);
    let mut handle = evsieve::loopback::Loopback::new().get_handle(0);
    let mut out = Vec::new();
    let event = Event::new(EV_KEY, KEY_LEFTCTRL, 1, 0, KEYBOARD, Namespace::User);
    withhold.apply(&event, &mut out, &mut handle, 2);
    assert_eq!(withhold.phase(), evsieve::withhold::Phase::Holding);
    withhold.wakeup(&evsieve::loopback::Token { owner: 1, serial: 0 }, &mut out);
    assert!(out.is_empty());
    withhold.wakeup(&handle.scheduled()[0].token, &mut out);
    assert_eq!(out, vec![event]);
    assert_eq!(withhold.phase(), evsieve::withhold::Phase::Passing);
}

#[test]
fn no_entry_touches_an_event_in_the_output_namespace() {
    let grabby = |namespace: Namespace| {
        vec![
            StreamEntry::EventMap(EventMap::block(Key::any(namespace))),
            StreamEntry::Delay(Delay::new(vec![Key::any(namespace)], 100)),
            StreamEntry::Withhold(Withhold::new(vec![pressed(KEY_A, namespace)], 100)),
            StreamEntry::Merge(Merge::new(vec![Key::any(namespace)], 9)),
            StreamEntry::Hook(Hook::new(vec![pressed(KEY_A, namespace)], vec![HookAction::Spawn { command: 1 }], 0)),
            StreamEntry::Print(EventPrinter::new(vec![Key::any(namespace)], PrintFormat::Direct)),
        ]
    };
    let stamped = Event::new(EV_KEY, KEY_A, 1, 0, KEYBOARD, Namespace::Output);
    let mut setup = setup_with(grabby(Namespace::Output), State::new());
    run(&mut setup, stamped);
    assert_eq!(setup.staged_events(), &vec![stamped]);
    assert!(setup.take_effects().is_empty());
    assert_eq!(setup.time_until_next_wakeup(), Wait::Never);

    let mut setup = setup_with(grabby(Namespace::User), State::new());
    run(&mut setup, stamped);
    assert_eq!(setup.staged_events(), &vec![stamped]);
    run(&mut setup, Event { namespace: Namespace::User, ..stamped });
    assert_eq!(setup.staged_events(), &vec![stamped]);
}

#[test]
fn events_are_plain_values() {
    let event = Event::new(EV_KEY, KEY_A, 1, 0, KEYBOARD, Namespace::Input);
    assert_eq!((event.ev_type, event.code, event.value, event.previous_value), (EV_KEY, KEY_A, 1, 0));
    assert_eq!((event.domain, event.namespace), (KEYBOARD, Namespace::Input));
    assert_eq!(event.with_domain(5), Event { domain: 5, ..event });
    assert_eq!(event.with_namespace(Namespace::User), Event { namespace: Namespace::User, ..event });
    assert!(event.is_key() && !event.is_syn());
    assert!(report().is_syn() && !report().is_key());
    let mut out = vec![report()];
    evsieve::event::push_all(&mut out, &vec![event, event]);
    assert_eq!(out, vec![report(), event, event]);
}

#[test]
fn shared_toggles() {
    let mut state = State::new();
    assert_eq!(state.len(), 0);
    assert_eq!(state.add_toggle(3), 0);
    assert_eq!(state.add_toggle(0), 1);
    assert_eq!(state.get(0), Some(ToggleState { value: 0, size: 3 }));
    assert_eq!(state.get(2), None);
    state.advance(0);
    state.advance(0);
    assert_eq!(state.get(0), Some(ToggleState { value: 2, size: 3 }));
    state.advance(0);
    assert_eq!(state.get(0), Some(ToggleState { value: 0, size: 3 }));
    state.set(0, 1);
    assert_eq!(state.get(0), Some(ToggleState { value: 1, size: 3 }));
    state.set(0, 3);
    assert_eq!(state.get(0), Some(ToggleState { value: 1, size: 3 }));
    state.advance(1);
    state.set(1, 0);
    state.advance(7);
    state.set(7, 0);
    assert_eq!(state.get(1), Some(ToggleState { value: 0, size: 0 }));
    assert_eq!(state.len(), 2);
}

#[test]
fn hook_sets_a_toggle() {
    let mut state = State::new();
    let index = state.add_toggle(3);
    let hook = Hook::new(
        vec![pressed(KEY_A, Namespace::User), pressed(KEY_C, Namespace::User)],
        vec![HookAction::SetToggle { index, value: 2 }, HookAction::Spawn { command: 5 }],
        0,
    );
    let mut setup = setup_with(vec![enter(), StreamEntry::Hook(hook), leave()], state);
    run(&mut setup, input(KEY_A, 1, 0));
    assert_eq!(setup.toggle(index), Some(ToggleState { value: 0, size: 3 }));
    run(&mut setup, input(KEY_C, 1, 0));
    assert_eq!(setup.toggle(index), Some(ToggleState { value: 2, size: 3 }));
    // Held keys that repeat do not trigger the hook again.
    run(&mut setup, input(KEY_C, 2, 1));
    assert_eq!(setup.take_effects(), vec![Effect::Spawn { command: 5 }]);
    assert_eq!(setup.staged_events().len(), 3);
}

#[test]
fn a_known_device_with_the_same_capabilities_leaves_the_outputs() {
    let mut setup = setup_with(vec![enter(), leave()], State::new());
    let pre = |domain: u32| evsieve::predevice::PreInputDevice {
        path: "/dev/input/event5".to_string(),
        domain,
        grab_mode: evsieve::predevice::GrabMode::Never,
        persist_mode: evsieve::predevice::PersistMode::Reopen,
    };
    let codes = vec![
        CodeCapability { ev_type: EV_KEY, code: KEY_A, abs_info: None },
        CodeCapability { ev_type: EV_KEY, code: KEY_C, abs_info: None },
        CodeCapability { ev_type: EV_KEY, code: KEY_LEFTCTRL, abs_info: None },
    ];
    let same = evsieve::input::InputDevice::open(pre(KEYBOARD), Capabilities { codes, rep_info: None }, Vec::new());
    setup.update_caps(&same);
    assert!(setup.take_output_commands().is_empty());

    let more = evsieve::input::InputDevice::open(
        pre(KEYBOARD),
        Capabilities { codes: vec![CodeCapability { ev_type: EV_KEY, code: KEY_B, abs_info: None }], rep_info: None },
        Vec::new(),
    );
    setup.update_caps(&more);
    assert_eq!(
        setup.take_output_commands(),
        vec![OutputCommand::Destroy { device: 0 }, OutputCommand::Create { device: 0 }]
    );
    // A device that is new to the setup is on no output's domain here.
    let other = evsieve::input::InputDevice::open(pre(44), Capabilities::new(), Vec::new());
    setup.update_caps(&other);
    assert!(setup.take_output_commands().is_empty());
}
