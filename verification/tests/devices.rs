use evsieve::capability::{AbsInfo, Capabilities, CodeCapability, InputCapabilities, RepeatInfo};
use evsieve::epoll::{Epoll, Message, Pollable, Readiness};
use evsieve::error::{ErrorKind, Frame, RuntimeError};
use evsieve::event::{is_abs_mt, Event, Namespace, EV_ABS, EV_KEY, EV_REL, EV_SYN, SYN_REPORT};
use evsieve::input::{
    classify_read_status, compute_initial_value, get_capabilities, get_device_state, CodeState, InputDevice,
    ProbedCode, ProbedRepeat, RawEvent, RawReader, ReadFlag, ReadStatus, ReadStep,
};
use evsieve::input_system::{EpollResult, InputSystem};
use evsieve::key::{Key, Target};
use evsieve::loopback::{next_serial, Delay as Wait, Loopback, Token};
use evsieve::mapping::EventMap;
use evsieve::output::{OutputCommand, OutputSystem};
use evsieve::persist::{HostInterfaceState, InterfaceStatus, PersistCommand};
use evsieve::predevice::{GrabMode, PersistMode, PreInputDevice, PreOutputDevice};
use evsieve::program::{
    count_remaining_input_devices, handle_broken_file, handle_ready_file, is_termination_signal, Action,
    Notice, Program, Reading, SignalRead,
};
use evsieve::state::State;
use evsieve::stream::{Setup, StreamEntry};

const KEY_A: u16 = 30;
const KEY_B: u16 = 48;

fn pre(path: &str, domain: u32, grab_mode: GrabMode, persist_mode: PersistMode) -> PreInputDevice {
    PreInputDevice { path: path.to_string(), domain, grab_mode, persist_mode }
}

fn keyboard_caps() -> Capabilities {
    Capabilities {
        codes: vec![
            CodeCapability { ev_type: EV_KEY, code: KEY_A, abs_info: None },
            CodeCapability { ev_type: EV_KEY, code: KEY_B, abs_info: None },
        ],
        rep_info: None,
    }
}

fn keyboard(domain: u32, grab_mode: GrabMode, persist_mode: PersistMode) -> InputDevice {
    InputDevice::open(pre("/dev/input/event5", domain, grab_mode, persist_mode), keyboard_caps(), Vec::new())
}

fn raw(code: u16, value: i32) -> RawEvent {
    RawEvent { ev_type: EV_KEY, code, value }
}

#[test]
fn read_statuses() {
    assert_eq!(classify_read_status(0), ReadStatus::Success);
    assert_eq!(classify_read_status(1), ReadStatus::Sync);
    assert_eq!(classify_read_status(-11), ReadStatus::Again);
    assert_eq!(classify_read_status(11), ReadStatus::Unknown);
    assert_eq!(classify_read_status(-19), ReadStatus::Unknown);
}

#[test]
fn reader_drains_a_device() {
    let mut reader = RawReader::new();
    assert_eq!(reader.flag(), ReadFlag::Normal);
    assert_eq!(reader.accept(0, raw(KEY_A, 1)).unwrap(), ReadStep::More);
    assert_eq!(reader.flag(), ReadFlag::Normal);
    assert_eq!(reader.accept(1, raw(KEY_B, 1)).unwrap(), ReadStep::More);
    assert_eq!(reader.flag(), ReadFlag::Sync);
    assert_eq!(reader.accept(0, raw(KEY_B, 0)).unwrap(), ReadStep::More);
    assert_eq!(reader.flag(), ReadFlag::Sync);
    assert_eq!(reader.accept(-11, raw(0, 0)).unwrap(), ReadStep::Done);
    assert_eq!(reader.into_events(), vec![raw(KEY_A, 1), raw(KEY_B, 1), raw(KEY_B, 0)]);
}

#[test]
fn reader_fails_on_an_unknown_status() {
    let mut reader = RawReader::new();
    reader.accept(0, raw(KEY_A, 1)).unwrap();
    let error = reader.accept(-19, raw(0, 0)).unwrap_err();
    assert_eq!(error.kind(), ErrorKind::UnknownReadStatus { status: -19 });
    assert!(error.context().is_empty());
    assert_eq!(reader.into_events(), vec![raw(KEY_A, 1)]);
}

#[test]
fn poll_fills_in_previous_values() {
    let mut device = InputDevice::open(
        pre("/dev/input/event5", 4, GrabMode::Never, PersistMode::Forget),
        keyboard_caps(),
        vec![CodeState { ev_type: EV_KEY, code: KEY_B, value: 1 }],
    );
    let events = device.poll(&vec![raw(KEY_A, 1), raw(KEY_B, 0), raw(KEY_A, 2), raw(KEY_A, 0)]);
    assert_eq!(
        events,
        vec![
            Event::new(EV_KEY, KEY_A, 1, 0, 4, Namespace::Input),
            Event::new(EV_KEY, KEY_B, 0, 1, 4, Namespace::Input),
            Event::new(EV_KEY, KEY_A, 2, 1, 4, Namespace::Input),
            Event::new(EV_KEY, KEY_A, 0, 2, 4, Namespace::Input),
        ]
    );
    assert_eq!(device.poll(&vec![raw(KEY_A, 1)])[0].previous_value, 0);
    assert_eq!(device.domain(), 4);
    assert_eq!(device.path(), "/dev/input/event5");
    assert_eq!(device.capabilities().codes, keyboard_caps().codes);
    assert_eq!(device.persist_mode(), PersistMode::Forget);
}

#[test]
fn grab_modes() {
    let mut never = keyboard(1, GrabMode::Never, PersistMode::Forget);
    assert!(!never.grab_if_desired());
    never.poll(&vec![raw(KEY_A, 0)]);
    assert!(!never.grab_if_desired());

    let mut force = keyboard(1, GrabMode::Force, PersistMode::Forget);
    force.poll(&vec![raw(KEY_A, 1)]);
    assert!(force.grab_if_desired());
    let error = force.grab(-1).unwrap_err();
    assert_eq!(error.kind(), ErrorKind::GrabFailed);
    assert!(!force.is_grabbed());
    assert!(force.grab_if_desired());
    assert!(force.grab(0).is_ok());
    assert!(force.is_grabbed());
    assert!(!force.grab_if_desired());
    assert_eq!(force.ungrab(-1).unwrap_err().kind(), ErrorKind::UngrabFailed);
    assert!(force.is_grabbed());
    assert!(force.ungrab(0).is_ok());
    assert!(!force.is_grabbed());

    let mut auto = keyboard(1, GrabMode::Auto, PersistMode::Forget);
    assert!(auto.grab_if_desired());
    auto.poll(&vec![raw(KEY_A, 1)]);
    assert!(!auto.grab_if_desired());
    auto.poll(&vec![RawEvent { ev_type: EV_REL, code: 0, value: 5 }, raw(KEY_A, 0)]);
    assert!(auto.grab_if_desired());
    auto.grab(0).unwrap();
    assert!(!auto.grab_if_desired());
}

#[test]
fn capabilities_from_what_the_kernel_says() {
    let info = AbsInfo { min_value: 0, max_value: 255, fuzz: 1, flat: 2, resolution: 3 };
    let types = vec![EV_KEY, EV_ABS];
    let probed = |ev_type: u16, code: u16, supported: bool, abs_info: Option<AbsInfo>| ProbedCode {
        ev_type,
        code,
        supported,
        abs_info,
    };
    let codes = vec![
        probed(EV_KEY, KEY_A, true, Some(info)),
        probed(EV_KEY, KEY_B, false, None),
        probed(EV_REL, 0, true, None),
        probed(EV_ABS, 0, true, Some(info)),
        probed(EV_ABS, 1, true, None),
    ];
    let caps = get_capabilities(&types, &codes, ProbedRepeat { status: 0, delay: 250, period: 33 });
    assert_eq!(
        caps.codes,
        vec![
            CodeCapability { ev_type: EV_KEY, code: KEY_A, abs_info: None },
            CodeCapability { ev_type: EV_ABS, code: 0, abs_info: Some(info) },
            CodeCapability { ev_type: EV_ABS, code: 1, abs_info: None },
        ]
    );
    assert_eq!(caps.rep_info, Some(RepeatInfo { delay: 250, period: 33 }));
    let silent = get_capabilities(&types, &codes, ProbedRepeat { status: -1, delay: 250, period: 33 });
    assert_eq!(silent.rep_info, None);
}

#[test]
fn initial_state_of_a_device() {
    let info = |min: i32, max: i32| {
        Some(AbsInfo { min_value: min, max_value: max, fuzz: 0, flat: 0, resolution: 0 })
    };
    let slot = |abs_info| CodeCapability { ev_type: EV_ABS, code: 0x35, abs_info };
    assert!(is_abs_mt(EV_ABS, 0x2f) && is_abs_mt(EV_ABS, 0x3d));
    assert!(!is_abs_mt(EV_ABS, 0x2e) && !is_abs_mt(EV_ABS, 0x3e) && !is_abs_mt(EV_KEY, 0x35));
    assert_eq!(compute_initial_value(&slot(info(0, 100)), 77), 50);
    assert_eq!(compute_initial_value(&slot(info(0, 101)), 77), 50);
    assert_eq!(compute_initial_value(&slot(info(-101, 0)), 77), -50);
    assert_eq!(compute_initial_value(&slot(info(-7, 2)), 77), -2);
    assert_eq!(compute_initial_value(&slot(info(i32::MAX, 1)), 77), 0);
    assert_eq!(compute_initial_value(&slot(info(i32::MIN, -1)), 77), 0);
    assert_eq!(compute_initial_value(&slot(None), 77), 0);
    let plain = CodeCapability { ev_type: EV_ABS, code: 0, abs_info: info(0, 100) };
    assert_eq!(compute_initial_value(&plain, 77), 77);

    let caps = Capabilities { codes: vec![plain, slot(info(0, 10))], rep_info: None };
    assert_eq!(
        get_device_state(&caps, &vec![3, 4]),
        vec![
            CodeState { ev_type: EV_ABS, code: 0, value: 3 },
            CodeState { ev_type: EV_ABS, code: 0x35, value: 5 },
        ]
    );
}

#[test]
fn blueprint_keeps_what_opens_the_device_again() {
    let device = keyboard(6, GrabMode::Auto, PersistMode::Reopen);
    let blueprint = device.into_blueprint();
    assert_eq!(blueprint.pre_device.path, "/dev/input/event5");
    assert_eq!(blueprint.pre_device.domain, 6);
    assert_eq!(blueprint.pre_device.grab_mode, GrabMode::Auto);
    assert_eq!(blueprint.pre_device.persist_mode, PersistMode::Reopen);
    assert_eq!(blueprint.capabilities.codes, keyboard_caps().codes);
}

#[test]
fn loopback_hands_out_wakeups_in_order() {
    let mut loopback = Loopback::new();
    assert_eq!(loopback.time_until_next_wakeup(), Wait::Never);
    assert_eq!(loopback.poll_once(), None);
    loopback.advance_clock(100);
    let token = |serial: u64| Token { owner: 0, serial };
    let mut handle = loopback.get_handle_lazy();
    assert_eq!(handle.now(), 100);
    assert!(handle.schedule(50, token(1)));
    assert!(handle.schedule(20, token(2)));
    assert!(handle.schedule(50, token(3)));
    assert!(!handle.schedule(0, token(4)));
    assert!(!handle.can_defer(0));
    assert!(handle.can_defer(u64::MAX - 100));
    assert!(!handle.can_defer(u64::MAX - 99));
    assert!(!handle.schedule(u64::MAX, token(5)));
    assert_eq!(handle.scheduled().len(), 3);
    loopback.commit(handle);
    assert_eq!(loopback.time_until_next_wakeup(), Wait::At(20));
    assert_eq!(loopback.poll_once(), None);
    loopback.advance_clock(119);
    assert_eq!(loopback.poll_once(), None);
    loopback.advance_clock(120);
    assert_eq!(loopback.poll_once(), Some((120, token(2))));
    assert_eq!(loopback.poll_once(), None);
    loopback.advance_clock(90);
    assert_eq!(loopback.clock(), 120);
    loopback.advance_clock(1_000);
    assert_eq!(loopback.time_until_next_wakeup(), Wait::At(0));
    // Wake-ups for the same instant fire in the order in which they were asked for.
    assert_eq!(loopback.poll_once(), Some((150, token(1))));
    assert_eq!(loopback.poll_once(), Some((150, token(3))));
    assert_eq!(loopback.poll_once(), None);
    let fixed = loopback.get_handle(7);
    assert_eq!(fixed.now(), 7);
    assert_eq!(next_serial(4), 5);
    assert_eq!(next_serial(u64::MAX), 0);
}

#[test]
fn register_gives_each_number_once() {
    let mut epoll = Epoll::new();
    assert!(!epoll.has_files());
    let signal = epoll.add_file(Pollable::SignalFd).unwrap();
    let first = epoll.add_file(Pollable::InputDevice(keyboard(1, GrabMode::Never, PersistMode::Forget))).unwrap();
    let second = epoll.add_file(Pollable::InputDevice(keyboard(2, GrabMode::Never, PersistMode::Forget))).unwrap();
    assert_eq!((signal, first, second), (0, 1, 2));
    assert_eq!(epoll.count_input_devices(), 2);
    assert!(!epoll.has_inotify());
    assert!(matches!(epoll.remove(first), Some(Pollable::InputDevice(_))));
    assert!(epoll.remove(first).is_none());
    assert!(epoll.get(first).is_none());
    assert!(matches!(epoll.get(signal), Some(Pollable::SignalFd)));
    let third = epoll.add_file(Pollable::Inotify).unwrap();
    assert_eq!(third, 3);
    assert!(epoll.has_inotify());
    assert_eq!(count_remaining_input_devices(&epoll), 1);
    match epoll.get_mut(second) {
        Some(Pollable::InputDevice(device)) => {
            device.poll(&vec![raw(KEY_A, 1)]);
        },
        _ => panic!("the second keyboard is registered"),
    }
    match epoll.get(second) {
        Some(Pollable::InputDevice(device)) => assert_eq!((device.value_of(EV_KEY, KEY_A), device.value_of(EV_KEY, KEY_B)), (1, 0)),
        _ => panic!("the second keyboard is registered"),
    }
    assert!(epoll.get_mut(99).is_none());
    assert!(epoll.has_files());
}

#[test]
fn register_reports_what_a_wait_came_to() {
    let epoll = Epoll::new();
    let ready = vec![Readiness { index: 3, broken: false }, Readiness { index: 1, broken: true }];
    assert_eq!(epoll.poll(&ready, false).unwrap(), vec![Message::Ready(3), Message::Broken(1)]);
    assert!(epoll.poll(&ready, true).is_err());
    assert_eq!(epoll.poll(&vec![], false).unwrap(), vec![]);
}

#[test]
fn termination_signals() {
    assert!(is_termination_signal(15));
    assert!(is_termination_signal(2));
    assert!(is_termination_signal(1));
    assert!(!is_termination_signal(13));
    assert!(!is_termination_signal(17));
    assert!(!is_termination_signal(0));
}

#[test]
fn errors_carry_their_context() {
    let error = RuntimeError::new(ErrorKind::OpenFailed)
        .with_context(Frame::OpeningDevice { path: "/dev/input/event3".to_string() })
        .with_context(Frame::AddingOpenedDevice);
    assert_eq!(error.kind(), ErrorKind::OpenFailed);
    assert_eq!(
        error.context(),
        &vec![Frame::OpeningDevice { path: "/dev/input/event3".to_string() }, Frame::AddingOpenedDevice]
    );
}

fn program_with(devices: Vec<InputDevice>) -> (Program, Vec<u64>) {
    let mut input_caps = InputCapabilities::new();
    for device in &devices {
        input_caps.insert(device.domain(), device.capabilities().clone());
    }
    let stream = vec![
        StreamEntry::EventMap(EventMap::new(Key::any(Namespace::Input), vec![Target::to_namespace(Namespace::User)])),
        StreamEntry::EventMap(EventMap::new(Key::any(Namespace::User), vec![Target::to_namespace(Namespace::Output)])),
    ];
    let outputs = vec![PreOutputDevice { domain: 1 }];
    let mut setup = Setup::create(stream, outputs, State::new(), input_caps).unwrap();
    setup.take_output_commands();
    let mut program = Program::new(setup);
    let mut numbers = vec![program.epoll.add_file(Pollable::SignalFd).unwrap()];
    for device in devices {
        numbers.push(program.epoll.add_file(Pollable::InputDevice(device)).unwrap());
    }
    (program, numbers)
}

#[test]
fn ready_device_feeds_the_stream() {
    let (mut program, numbers) = program_with(vec![keyboard(1, GrabMode::Auto, PersistMode::Forget)]);
    let reading = Reading::Device(Ok(vec![
        raw(KEY_A, 1),
        RawEvent { ev_type: EV_SYN, code: SYN_REPORT, value: 0 },
        raw(KEY_A, 0),
        RawEvent { ev_type: EV_SYN, code: SYN_REPORT, value: 0 },
    ]));
    assert_eq!(handle_ready_file(&mut program, numbers[1], reading), Action::Continue);
    assert_eq!(
        program.setup.take_output_commands(),
        vec![
            OutputCommand::Write { device: 0, event: Event::new(EV_KEY, KEY_A, 1, 0, 1, Namespace::Output) },
            OutputCommand::Syn { device: 0 },
            OutputCommand::Write { device: 0, event: Event::new(EV_KEY, KEY_A, 0, 1, 1, Namespace::Output) },
            OutputCommand::Syn { device: 0 },
        ]
    );
    assert_eq!(program.take_notices(), vec![Notice::GrabWanted { index: numbers[1] }]);

    let held = Reading::Device(Ok(vec![raw(KEY_A, 1)]));
    assert_eq!(handle_ready_file(&mut program, numbers[1], held), Action::Continue);
    assert!(program.take_notices().is_empty());
}

#[test]
fn signals_end_the_loop() {
    let (mut program, numbers) = program_with(vec![keyboard(1, GrabMode::Never, PersistMode::Forget)]);
    let signal = numbers[0];
    assert_eq!(handle_ready_file(&mut program, signal, Reading::Signal(SignalRead::Signal(13))), Action::Continue);
    assert_eq!(handle_ready_file(&mut program, signal, Reading::Signal(SignalRead::Interrupted)), Action::Continue);
    assert_eq!(handle_ready_file(&mut program, signal, Reading::Signal(SignalRead::Signal(15))), Action::Exit);
    assert_eq!(handle_ready_file(&mut program, signal, Reading::Signal(SignalRead::Signal(2))), Action::Exit);
    assert_eq!(handle_ready_file(&mut program, signal, Reading::Signal(SignalRead::Signal(1))), Action::Exit);
    assert!(program.take_notices().is_empty());
    assert_eq!(handle_ready_file(&mut program, signal, Reading::Signal(SignalRead::Failed)), Action::Exit);
    assert_eq!(program.take_notices(), vec![Notice::SignalFdBroken]);
    assert_eq!(handle_ready_file(&mut program, signal, Reading::Inotify), Action::Continue);
    assert_eq!(program.take_notices(), vec![Notice::WrongReading { index: signal }]);
    assert_eq!(handle_ready_file(&mut program, 77, Reading::Inotify), Action::Continue);
    assert_eq!(program.take_notices(), vec![Notice::NotRegistered { index: 77 }]);
    assert_eq!(handle_broken_file(&mut program, 77), Action::Continue);
    assert_eq!(program.take_notices(), vec![Notice::BrokenNotRegistered { index: 77 }]);
    assert_eq!(handle_broken_file(&mut program, signal), Action::Exit);
    assert_eq!(program.take_notices(), vec![Notice::SignalFdBroken]);
}

#[test]
fn the_loop_ends_when_the_last_device_is_gone() {
    let (mut program, numbers) = program_with(vec![
        keyboard(1, GrabMode::Never, PersistMode::Forget),
        keyboard(2, GrabMode::Never, PersistMode::Forget),
    ]);
    assert_eq!(handle_broken_file(&mut program, numbers[1]), Action::Continue);
    assert_eq!(program.take_notices(), vec![Notice::DeviceDisconnected { domain: 1 }]);
    let failed = Reading::Device(Err(RuntimeError::new(ErrorKind::UnknownReadStatus { status: -19 })));
    assert_eq!(handle_ready_file(&mut program, numbers[2], failed), Action::Exit);
    assert_eq!(
        program.take_notices(),
        vec![
            Notice::Failed(
                RuntimeError::new(ErrorKind::UnknownReadStatus { status: -19 })
                    .with_context(Frame::PollingDevice { path: "/dev/input/event5".to_string() })
            ),
            Notice::DeviceDisconnected { domain: 2 },
            Notice::NoDevicesLeft,
        ]
    );
    assert_eq!(count_remaining_input_devices(&program.epoll), 0);
    assert_eq!(program.persist_subsystem.status(), InterfaceStatus::NotStarted);
}

#[test]
fn disconnect_and_reopen() {
    let (mut program, numbers) = program_with(vec![
        keyboard(1, GrabMode::Never, PersistMode::Reopen),
        keyboard(2, GrabMode::Never, PersistMode::Forget),
    ]);
    assert_eq!(handle_broken_file(&mut program, numbers[1]), Action::Continue);
    assert_eq!(
        program.take_notices(),
        vec![Notice::DeviceDisconnected { domain: 1 }, Notice::InotifyWanted]
    );
    let helper = match program.persist_subsystem.status() {
        InterfaceStatus::Running { index } => index,
        other => panic!("the helper runs, not {:?}", other),
    };
    assert_eq!(helper, 3);
    let commands = program.persist_subsystem.take_commands();
    assert_eq!(commands.len(), 2);
    assert!(matches!(commands[0], PersistCommand::Start));
    match &commands[1] {
        PersistCommand::AddBlueprint(blueprint) => {
            assert_eq!(blueprint.pre_device.path, "/dev/input/event5");
            assert_eq!(blueprint.pre_device.domain, 1);
        },
        _ => panic!("the device is handed to the helper"),
    }

    let watch = program.epoll.add_file(Pollable::Inotify).unwrap();
    assert_eq!(handle_ready_file(&mut program, watch, Reading::Inotify), Action::Continue);
    assert!(matches!(program.persist_subsystem.take_commands()[..], [PersistCommand::TryReopen]));

    // The device comes back with the capabilities it had: no output is made anew.
    let back = keyboard(1, GrabMode::Never, PersistMode::Reopen);
    assert_eq!(handle_ready_file(&mut program, helper, Reading::Persist(Ok(back))), Action::Continue);
    assert!(program.setup.take_output_commands().is_empty());
    assert_eq!(count_remaining_input_devices(&program.epoll), 2);
    assert!(matches!(program.epoll.get(5), Some(Pollable::InputDevice(_))));
    assert!(program.take_notices().is_empty());

    // A device that can do more has its output made anew.
    let more = InputDevice::open(
        pre("/dev/input/event5", 1, GrabMode::Never, PersistMode::Reopen),
        Capabilities {
            codes: vec![CodeCapability { ev_type: EV_KEY, code: 99, abs_info: None }],
            rep_info: None,
        },
        Vec::new(),
    );
    assert_eq!(handle_ready_file(&mut program, helper, Reading::Persist(Ok(more))), Action::Continue);
    assert_eq!(
        program.setup.take_output_commands(),
        vec![OutputCommand::Destroy { device: 0 }, OutputCommand::Create { device: 0 }]
    );
    let device = program.setup.output().device(0).unwrap();
    assert_eq!(device.domain(), 1);
    assert_eq!(device.capabilities().codes.len(), 3);
    assert!(program.setup.output().device(1).is_none());

    // The helper breaks.
    // What the caller says of the failure is kept, and a frame is added to it.
    let failed = Reading::Persist(Err(RuntimeError::new(ErrorKind::PersistenceFailed)
        .with_context(Frame::OpeningDevice { path: "/dev/input/event9".to_string() })));
    assert_eq!(handle_ready_file(&mut program, helper, failed), Action::Continue);
    assert_eq!(
        program.take_notices(),
        vec![
            Notice::Failed(
                RuntimeError::new(ErrorKind::PersistenceFailed)
                    .with_context(Frame::OpeningDevice { path: "/dev/input/event9".to_string() })
                    .with_context(Frame::PollingPersistence)
            ),
            Notice::PersistenceBroken,
        ]
    );
    assert_eq!(program.persist_subsystem.status(), InterfaceStatus::Broken);
    assert!(matches!(program.persist_subsystem.take_commands()[..], [PersistCommand::Shutdown]));
    assert_eq!(handle_broken_file(&mut program, watch), Action::Continue);
    assert_eq!(program.take_notices(), vec![Notice::InotifyBroken]);
}

#[test]
fn helper_is_started_once_and_stopped_at_the_end() {
    let mut epoll = Epoll::new();
    let mut helper = HostInterfaceState::new();
    assert!(helper.add_blueprint(keyboard(1, GrabMode::Never, PersistMode::Reopen).into_blueprint()).is_err());
    helper.request_shutdown();
    helper.try_reopen();
    assert!(helper.take_commands().is_empty());
    assert!(helper.require(&mut epoll));
    assert!(helper.require(&mut epoll));
    assert_eq!(helper.status(), InterfaceStatus::Running { index: 0 });
    assert!(helper.add_blueprint(keyboard(1, GrabMode::Never, PersistMode::Reopen).into_blueprint()).is_ok());
    helper.await_shutdown(&mut epoll);
    assert!(!epoll.has_files());
    let commands = helper.take_commands();
    assert_eq!(commands.len(), 3);
    assert!(matches!(commands[0], PersistCommand::Start));
    assert!(matches!(commands[2], PersistCommand::Shutdown));
    assert_eq!(helper.status(), InterfaceStatus::NotStarted);
    helper.mark_as_broken();
    assert!(!helper.require(&mut epoll));
    helper.await_shutdown(&mut epoll);
    assert_eq!(helper.status(), InterfaceStatus::Broken);
}

#[test]
fn output_system_routes_by_domain() {
    let mut output = OutputSystem::create(
        vec![PreOutputDevice { domain: 1 }, PreOutputDevice { domain: 2 }],
        Vec::new(),
    )
    .unwrap();
    assert_eq!(output.device_count(), 2);
    assert_eq!(
        output.take_commands(),
        vec![OutputCommand::Create { device: 0 }, OutputCommand::Create { device: 1 }]
    );
    let on = |domain: u32| Event::new(EV_KEY, KEY_A, 1, 0, domain, Namespace::Output);
    output.route_events(&vec![on(2), on(3), on(1)]);
    output.synchronize();
    assert_eq!(
        output.commands(),
        &vec![
            OutputCommand::Write { device: 1, event: on(2) },
            OutputCommand::Write { device: 0, event: on(1) },
            OutputCommand::Syn { device: 0 },
            OutputCommand::Syn { device: 1 },
        ]
    );
}

#[test]
fn input_system_polls_and_reopens() {
    let opened = vec![
        Ok(keyboard(1, GrabMode::Never, PersistMode::Reopen)),
        Ok(keyboard(2, GrabMode::Never, PersistMode::Forget)),
    ];
    let mut system = InputSystem::from_pre_input_devices(opened).unwrap();
    assert_eq!(system.get_capabilities().len(), 4);
    assert_eq!(system.get_capabilities()[2].domain, 2);
    assert_eq!(system.get_capabilities()[0].namespace, Namespace::Input);
    assert!(!system.request_inotify());

    let event = Event::new(EV_KEY, KEY_A, 1, 0, 1, Namespace::Input);
    let results = vec![
        EpollResult::Event(event),
        EpollResult::Interrupt,
        EpollResult::BrokenInputDevice(0),
        EpollResult::BrokenInputDevice(0),
        EpollResult::Inotify,
        EpollResult::Event(event),
    ];
    assert_eq!(system.poll(results, false).unwrap(), vec![event, event]);
    assert!(system.request_inotify());
    assert!(system.reopen_due());
    assert_eq!(system.add_inotify().unwrap(), 2);
    assert!(!system.request_inotify());

    let broken = system.take_broken_devices();
    assert_eq!(broken.len(), 1);
    assert_eq!(broken[0].pre_device.domain, 1);
    let attempts = broken.into_iter().map(Err).collect();
    assert!(system.try_reopen_broken_devices(attempts).is_empty());
    assert!(!system.reopen_due());
    let broken = system.take_broken_devices();
    assert_eq!(broken.len(), 1);
    let added = system.try_reopen_broken_devices(vec![Ok(keyboard(1, GrabMode::Never, PersistMode::Reopen))]);
    assert_eq!(added, vec![3]);
    assert!(system.take_broken_devices().is_empty());

    assert!(system.poll(vec![EpollResult::Event(event), EpollResult::Interrupt], true).is_err());
    let last = vec![EpollResult::BrokenInputDevice(1), EpollResult::BrokenInputDevice(3), EpollResult::Interrupt];
    assert!(system.poll(last, false).is_ok());
    assert_eq!(system.take_broken_devices().len(), 2);
}

#[test]
fn input_system_fails_at_the_first_device_that_did_not_open() {
    let opened = vec![
        Ok(keyboard(1, GrabMode::Never, PersistMode::Forget)),
        Err(pre("/dev/input/event7", 7, GrabMode::Never, PersistMode::Forget)),
        Err(pre("/dev/input/event8", 8, GrabMode::Never, PersistMode::Forget)),
    ];
    match InputSystem::from_pre_input_devices(opened) {
        Ok(_) => panic!("a device did not open"),
        Err(error) => {
            assert_eq!(error.kind(), ErrorKind::OpenFailed);
            assert_eq!(error.context(), &vec![Frame::OpeningDevice { path: "/dev/input/event7".to_string() }]);
        },
    }
    let empty = InputSystem::from_pre_input_devices(Vec::new()).unwrap();
    assert!(empty.get_capabilities().is_empty());
}

#[test]
fn interrupt_without_devices_ends_the_poll() {
    let mut empty = InputSystem::from_pre_input_devices(Vec::new()).unwrap();
    assert!(empty.poll(vec![EpollResult::Interrupt], false).is_err());
}

#[test]
fn only_the_end_of_a_report_synchronises() {
    let (mut program, numbers) = program_with(vec![keyboard(1, GrabMode::Never, PersistMode::Forget)]);
    let syn = |code: u16| RawEvent { ev_type: EV_SYN, code, value: 0 };
    // SYN_CONFIG, SYN_MT_REPORT and SYN_DROPPED end no report: they flow through the stream.
    let reading = Reading::Device(Ok(vec![raw(KEY_A, 1), syn(1), syn(2), syn(3)]));
    assert_eq!(handle_ready_file(&mut program, numbers[1], reading), Action::Continue);
    assert!(program.setup.take_output_commands().is_empty());
    let staged: Vec<(u16, u16)> = program.setup.staged_events().iter().map(|e| (e.ev_type, e.code)).collect();
    assert_eq!(staged, vec![(EV_KEY, KEY_A), (EV_SYN, 1), (EV_SYN, 2), (EV_SYN, 3)]);

    let report = Reading::Device(Ok(vec![syn(SYN_REPORT)]));
    assert_eq!(handle_ready_file(&mut program, numbers[1], report), Action::Continue);
    assert!(program.setup.staged_events().is_empty());
    let commands = program.setup.take_output_commands();
    assert_eq!(commands.len(), 5);
    assert_eq!(commands[4], OutputCommand::Syn { device: 0 });
}

#[test]
fn output_devices_keep_the_key_repeat_timing() {
    let timing = Some(RepeatInfo { delay: 250, period: 33 });
    let cap = |domain: u32, code: u16, rep_info: Option<RepeatInfo>| evsieve::capability::Capability {
        ev_type: EV_KEY,
        code,
        domain,
        namespace: Namespace::Output,
        value_range: evsieve::range::Range::new(0, 2),
        abs_info: None,
        rep_info,
    };
    let caps = vec![
        cap(1, KEY_A, None),
        cap(2, KEY_A, Some(RepeatInfo { delay: 1, period: 1 })),
        cap(1, KEY_B, timing),
        cap(1, 50, Some(RepeatInfo { delay: 9, period: 9 })),
    ];
    let from = Capabilities::from_caps(&caps, 1);
    assert_eq!(from.rep_info, timing);
    assert_eq!(from.codes.len(), 3);
    assert_eq!(Capabilities::from_caps(&caps, 3).rep_info, None);

    let mut output = OutputSystem::create(
        vec![PreOutputDevice { domain: 1 }, PreOutputDevice { domain: 3 }],
        caps.clone(),
    )
    .unwrap();
    assert_eq!(output.device(0).unwrap().capabilities().rep_info, timing);
    assert_eq!(output.device(1).unwrap().capabilities().rep_info, None);
    output.take_commands();

    // A device that is made anew keeps its timing, and one that had none takes the new one.
    let more = vec![
        cap(1, 60, Some(RepeatInfo { delay: 5, period: 5 })),
        cap(3, 60, Some(RepeatInfo { delay: 5, period: 5 })),
    ];
    output.update_caps(more);
    assert_eq!(output.take_commands().len(), 4);
    assert_eq!(output.device(0).unwrap().capabilities().rep_info, timing);
    assert_eq!(output.device(1).unwrap().capabilities().rep_info, Some(RepeatInfo { delay: 5, period: 5 }));
}

#[test]
fn key_repeat_timing_of_an_input_reaches_its_output() {
    let mut input_caps = InputCapabilities::new();
    let timing = Some(RepeatInfo { delay: 250, period: 33 });
    input_caps.insert(
        1,
        Capabilities { codes: vec![CodeCapability { ev_type: EV_KEY, code: KEY_A, abs_info: None }], rep_info: timing },
    );
    let stream = vec![StreamEntry::EventMap(EventMap::new(
        Key::any(Namespace::Input),
        vec![Target::to_namespace(Namespace::Output)],
    ))];
    let setup = Setup::create(stream, vec![PreOutputDevice { domain: 1 }], State::new(), input_caps).unwrap();
    assert_eq!(setup.output().device(0).unwrap().capabilities().rep_info, timing);
}
