//! The decisions of the dispatch loop: what to do when a source is ready
//! and when one breaks.
//!
//! The loop itself is with the caller. It waits, reads from the source
//! that is ready, and hands what it read to the functions here, which
//! change the program's state and say whether to go on.

use vstd::prelude::*;
use crate::capability::DeviceCapabilitiesView;
use crate::epoll::{Epoll, EpollView, FileIndex, Pollable, PollableView, RegisteredView, position};
use crate::error::{ErrorKind, ErrorView, Frame, FrameView, RuntimeError};
use crate::event::{Domain, Event};
use crate::input::{poll_spec, InputDevice, InputDeviceView, RawEvent};
use crate::persist::{BlueprintView, HostInterfaceState, HostInterfaceView, PersistCommandView};
use crate::predevice::PersistMode;
use crate::seq_util::lemma_fold_left_take_step;
use crate::stream::{run, Setup, SetupView};
use crate::sys::{sighup, sigint, sigterm};

verus! {

/// What the dispatch loop is to do next.
#[derive(PartialEq, Eq, Structural, Clone, Copy, Debug)]
pub enum Action {
    /// Go on.
    Continue,
    /// End in good order.
    Exit,
}

/// Something for the caller to tell the user, or to do for the program.
#[derive(PartialEq, Eq, Debug)]
pub enum Notice {
    /// A source was said to be ready that is not registered.
    NotRegistered { index: FileIndex },
    /// A source was said to be broken that is not registered.
    BrokenNotRegistered { index: FileIndex },
    /// What was read does not come from the kind of source that is
    /// registered under the number.
    WrongReading { index: FileIndex },
    /// The input device of this domain has been disconnected.
    DeviceDisconnected { domain: Domain },
    /// Something failed. The error's context says what was being done; the
    /// dispatch has added its own frame to what the caller reported.
    Failed(RuntimeError),
    /// The device registered under this number is to be grabbed now; what
    /// comes of it is to be reported to the device.
    GrabWanted { index: FileIndex },
    /// A watch on the device directories is to be created and registered.
    InotifyWanted,
    /// A device cannot be opened again: the helper is not to be had.
    PersistenceUnavailable,
    /// The helper broke; devices that break may stay broken.
    PersistenceBroken,
    /// The descriptor for signals broke.
    SignalFdBroken,
    /// The watch on the device directories broke.
    InotifyBroken,
    /// No input device is left to read from.
    NoDevicesLeft,
}

pub enum NoticeView {
    NotRegistered { index: FileIndex },
    BrokenNotRegistered { index: FileIndex },
    WrongReading { index: FileIndex },
    DeviceDisconnected { domain: Domain },
    Failed(ErrorView),
    GrabWanted { index: FileIndex },
    InotifyWanted,
    PersistenceUnavailable,
    PersistenceBroken,
    SignalFdBroken,
    InotifyBroken,
    NoDevicesLeft,
}

impl View for Notice {
    type V = NoticeView;

    open spec fn view(&self) -> NoticeView {
        match self {
            Notice::NotRegistered { index } => NoticeView::NotRegistered { index: *index },
            Notice::BrokenNotRegistered { index } => NoticeView::BrokenNotRegistered { index: *index },
            Notice::WrongReading { index } => NoticeView::WrongReading { index: *index },
            Notice::DeviceDisconnected { domain } => NoticeView::DeviceDisconnected { domain: *domain },
            Notice::Failed(error) => NoticeView::Failed(error@),
            Notice::GrabWanted { index } => NoticeView::GrabWanted { index: *index },
            Notice::InotifyWanted => NoticeView::InotifyWanted,
            Notice::PersistenceUnavailable => NoticeView::PersistenceUnavailable,
            Notice::PersistenceBroken => NoticeView::PersistenceBroken,
            Notice::SignalFdBroken => NoticeView::SignalFdBroken,
            Notice::InotifyBroken => NoticeView::InotifyBroken,
            Notice::NoDevicesLeft => NoticeView::NoDevicesLeft,
        }
    }
}

/// What reading the descriptor for signals came to.
#[derive(PartialEq, Eq, Structural, Clone, Copy, Debug)]
pub enum SignalRead {
    /// The signal with this number arrived.
    Signal(i32),
    /// The read was interrupted.
    Interrupted,
    /// The read failed.
    Failed,
}

/// What the caller read from the source that was ready.
pub enum Reading {
    /// From an input device: the events drained from it, or the error
    /// that ended the reading.
    Device(Result<Vec<RawEvent>, RuntimeError>),
    Signal(SignalRead),
    /// From the helper: a device that it has opened again.
    Persist(Result<InputDevice, RuntimeError>),
    /// From the watch on the device directories: something changed.
    Inotify,
}

pub enum ReadingView {
    Device(Result<Seq<RawEvent>, ErrorView>),
    Signal(SignalRead),
    Persist(Result<InputDeviceView, ErrorView>),
    Inotify,
}

impl View for Reading {
    type V = ReadingView;

    open spec fn view(&self) -> ReadingView {
        match self {
            Reading::Device(Ok(raw)) => ReadingView::Device(Ok(raw@)),
            Reading::Device(Err(error)) => ReadingView::Device(Err(error@)),
            Reading::Signal(read) => ReadingView::Signal(*read),
            Reading::Persist(Ok(device)) => ReadingView::Persist(Ok(device@)),
            Reading::Persist(Err(error)) => ReadingView::Persist(Err(error@)),
            Reading::Inotify => ReadingView::Inotify,
        }
    }
}

/// The signals that ask the program to end: hang-up, interrupt and
/// termination.
pub open spec fn is_termination_signal_spec(signal: i32) -> bool {
    signal == 1 || signal == 2 || signal == 15
}

#[verifier::when_used_as_spec(is_termination_signal_spec)]
pub fn is_termination_signal(signal: i32) -> (r: bool)
    ensures
        r == is_termination_signal_spec(signal),
{
    signal == sigterm() || signal == sigint() || signal == sighup()
}

/// How many input devices are left to read from.
pub fn count_remaining_input_devices(epoll: &Epoll) -> (n: usize)
    ensures
        n == epoll@.input_devices(),
{
    epoll.count_input_devices()
}

pub struct Program {
    pub epoll: Epoll,
    pub setup: Setup,
    pub persist_subsystem: HostInterfaceState,
    /// What the caller has not been told yet.
    pub notices: Vec<Notice>,
}

pub struct ProgramView {
    pub epoll: EpollView,
    pub setup: SetupView,
    pub persist: HostInterfaceView,
    pub notices: Seq<NoticeView>,
}

impl View for Program {
    type V = ProgramView;

    open spec fn view(&self) -> ProgramView {
        ProgramView {
            epoll: self.epoll@,
            setup: self.setup@,
            persist: self.persist_subsystem@,
            notices: self.notices@.map_values(|n: Notice| n@),
        }
    }
}

/// The setup once each of `events` has been handed to it.
pub open spec fn run_all(setup: SetupView, events: Seq<Event>) -> SetupView {
    events.fold_left(setup, |s: SetupView, e: Event| s.run(e))
}

pub open spec fn blueprint_of(device: InputDeviceView) -> BlueprintView {
    BlueprintView {
        path: device.path,
        domain: device.domain,
        grab_mode: device.grab_mode,
        persist_mode: device.persist_mode,
        codes: device.codes,
        rep_info: device.rep_info,
    }
}

pub open spec fn capabilities_of(device: InputDeviceView) -> DeviceCapabilitiesView {
    DeviceCapabilitiesView { domain: device.domain, codes: device.codes, rep_info: device.rep_info }
}

impl ProgramView {
    pub open spec fn wf(self) -> bool {
        self.epoll.wf() && self.setup.wf()
    }

    pub open spec fn noticed(self, notice: NoticeView) -> ProgramView {
        ProgramView { notices: self.notices.push(notice), ..self }
    }

    /// The device under `index` has been read: it remembers the values it
    /// saw, the events go to the stream one by one, and the device is
    /// grabbed if it is time for that.
    pub open spec fn device_polled(self, index: FileIndex, device: InputDeviceView, raw: Seq<RawEvent>)
        -> ProgramView {
        let polled = poll_spec(device.state, raw, device.domain);
        let after = InputDeviceView { state: polled.state, ..device };
        ProgramView {
            epoll: EpollView {
                files: self.epoll.files.update(
                    position(self.epoll.files, index, 0),
                    RegisteredView { index, file: PollableView::InputDevice(after) },
                ),
                ..self.epoll
            },
            setup: run_all(self.setup, polled.out),
            notices: if after.wants_grab() {
                self.notices.push(NoticeView::GrabWanted { index })
            } else {
                self.notices
            },
            ..self
        }
    }

    /// The helper has opened a device again: the setup learns what the
    /// device can emit, and the device is registered.
    pub open spec fn device_opened(self, device: InputDeviceView) -> ProgramView {
        let setup = self.setup.update_caps(capabilities_of(device));
        if self.epoll.counter < u64::MAX {
            ProgramView {
                setup,
                epoll: EpollView {
                    files: self.epoll.files.push(
                        RegisteredView { index: self.epoll.counter, file: PollableView::InputDevice(device) },
                    ),
                    counter: (self.epoll.counter + 1) as u64,
                },
                ..self
            }
        } else {
            ProgramView {
                setup,
                notices: self.notices.push(
                    NoticeView::Failed(
                        (ErrorView { kind: ErrorKind::TooManySources, context: Seq::empty() }).with_context(
                            FrameView::AddingOpenedDevice,
                        ),
                    ),
                ),
                ..self
            }
        }
    }

    /// An input device broke and has left the register. If it is to be
    /// opened again, the helper is started if need be and told of it, and
    /// a watch on the device directories is asked for unless there is one.
    pub open spec fn device_lost(self, device: InputDeviceView) -> ProgramView {
        let told = self.noticed(NoticeView::DeviceDisconnected { domain: device.domain });
        if device.persist_mode == PersistMode::Reopen {
            let (persist, epoll) = told.persist.require(told.epoll);
            if persist.status is Running {
                ProgramView {
                    persist: persist.told(PersistCommandView::AddBlueprint(blueprint_of(device))),
                    epoll,
                    notices: if epoll.has_inotify() {
                        told.notices
                    } else {
                        told.notices.push(NoticeView::InotifyWanted)
                    },
                    ..told
                }
            } else {
                ProgramView { persist, epoll, ..told }.noticed(NoticeView::PersistenceUnavailable)
            }
        } else {
            told
        }
    }

    /// The source under `index` is broken for good. It leaves the
    /// register. The loop ends when the descriptor for signals broke, or
    /// when an input device broke and none is left.
    pub open spec fn broken(self, index: FileIndex) -> (ProgramView, Action) {
        let removed = ProgramView { epoll: self.epoll.removed(index), ..self };
        match self.epoll.get(index) {
            None => (self.noticed(NoticeView::BrokenNotRegistered { index }), Action::Continue),
            Some(PollableView::InputDevice(device)) => {
                let lost = removed.device_lost(device);
                if lost.epoll.input_devices() == 0 {
                    (lost.noticed(NoticeView::NoDevicesLeft), Action::Exit)
                } else {
                    (lost, Action::Continue)
                }
            },
            Some(PollableView::SignalFd) => (removed.noticed(NoticeView::SignalFdBroken), Action::Exit),
            Some(PollableView::PersistSubsystem) => (
                ProgramView {
                    persist: HostInterfaceView {
                        status: crate::persist::InterfaceStatus::Broken,
                        ..removed.persist.told(PersistCommandView::Shutdown)
                    },
                    ..removed
                }.noticed(NoticeView::PersistenceBroken),
                Action::Continue,
            ),
            Some(PollableView::Inotify) => (removed.noticed(NoticeView::InotifyBroken), Action::Continue),
        }
    }

    /// The source under `index` was ready, and `reading` is what was read
    /// from it. An error that the caller met while reading is handed on
    /// with one more frame of context, which says what was being polled.
    pub open spec fn ready(self, index: FileIndex, reading: ReadingView) -> (ProgramView, Action) {
        let wrong = (self.noticed(NoticeView::WrongReading { index }), Action::Continue);
        match self.epoll.get(index) {
            None => (self.noticed(NoticeView::NotRegistered { index }), Action::Continue),
            Some(PollableView::InputDevice(device)) => match reading {
                ReadingView::Device(Ok(raw)) => (self.device_polled(index, device, raw), Action::Continue),
                ReadingView::Device(Err(error)) => self.noticed(
                    NoticeView::Failed(error.with_context(FrameView::PollingDevice { path: device.path })),
                ).broken(index),
                _ => wrong,
            },
            Some(PollableView::SignalFd) => match reading {
                ReadingView::Signal(SignalRead::Signal(signal)) => (
                    self,
                    if is_termination_signal_spec(signal) {
                        Action::Exit
                    } else {
                        Action::Continue
                    },
                ),
                ReadingView::Signal(SignalRead::Interrupted) => (self, Action::Continue),
                ReadingView::Signal(SignalRead::Failed) => (
                    self.noticed(NoticeView::SignalFdBroken),
                    Action::Exit,
                ),
                _ => wrong,
            },
            Some(PollableView::PersistSubsystem) => match reading {
                ReadingView::Persist(Ok(device)) => (self.device_opened(device), Action::Continue),
                ReadingView::Persist(Err(error)) => self.noticed(
                    NoticeView::Failed(error.with_context(FrameView::PollingPersistence)),
                ).broken(index),
                _ => wrong,
            },
            Some(PollableView::Inotify) => match reading {
                ReadingView::Inotify => (
                    ProgramView { persist: self.persist.told(PersistCommandView::TryReopen), ..self },
                    Action::Continue,
                ),
                _ => wrong,
            },
        }
    }
}

/// Adds to what the caller has not been told yet.
fn notify(program: &mut Program, notice: Notice)
    ensures
        final(program)@ == old(program)@.noticed(notice@),
{
    let ghost view = notice@;
    program.notices.push(notice);
    assert(program@.notices =~= old(program)@.notices.push(view));
}

/// The path of the input device under `index`.
fn device_path(epoll: &Epoll, index: FileIndex) -> (path: String)
    requires
        epoll@.get(index) matches Some(PollableView::InputDevice(_)),
    ensures
        path@ == epoll@.get(index)->0->InputDevice_0.path,
{
    match epoll.get(index) {
        Some(file) => match file {
            Pollable::InputDevice(device) => device.path().clone(),
            _ => String::new(),
        },
        None => String::new(),
    }
}

/// Hands each of `events` to the stream.
pub fn run_events(setup: &mut Setup, events: &Vec<Event>)
    requires
        old(setup)@.wf(),
    ensures
        final(setup)@.wf(),
        final(setup)@ == run_all(old(setup)@, events@),
{
    let ghost f = |s: SetupView, e: Event| s.run(e);
    let mut i: usize = 0;
    assert(events@.take(0) =~= Seq::<Event>::empty());
    while i < events.len()
        invariant
            i <= events.len(),
            setup@.wf(),
            f == (|s: SetupView, e: Event| s.run(e)),
            setup@ == events@.take(i as int).fold_left(old(setup)@, f),
        decreases events.len() - i,
    {
        proof {
            lemma_fold_left_take_step(events@, old(setup)@, f, i as int);
        }
        run(setup, events[i]);
        i += 1;
    }
    assert(events@.take(events@.len() as int) =~= events@);
}

/// What to do about a source that is broken for good.
pub fn handle_broken_file(program: &mut Program, index: FileIndex) -> (action: Action)
    requires
        old(program)@.wf(),
    ensures
        final(program)@.wf(),
        (final(program)@, action) == old(program)@.broken(index),
{
    let broken_device = match program.epoll.remove(index) {
        Some(file) => file,
        None => {
            notify(program, Notice::BrokenNotRegistered { index });
            return Action::Continue;
        },
    };
    match broken_device {
        Pollable::InputDevice(device) => {
            notify(program, Notice::DeviceDisconnected { domain: device.domain() });
            let should_persist = match device.persist_mode() {
                PersistMode::Forget => false,
                PersistMode::Reopen => true,
            };
            if should_persist {
                if program.persist_subsystem.require(&mut program.epoll) {
                    let _ = program.persist_subsystem.add_blueprint(device.into_blueprint());
                    if !program.epoll.has_inotify() {
                        notify(program, Notice::InotifyWanted);
                    }
                } else {
                    notify(program, Notice::PersistenceUnavailable);
                }
            }
            if count_remaining_input_devices(&program.epoll) == 0 {
                notify(program, Notice::NoDevicesLeft);
                Action::Exit
            } else {
                Action::Continue
            }
        },
        Pollable::SignalFd => {
            notify(program, Notice::SignalFdBroken);
            Action::Exit
        },
        Pollable::PersistSubsystem => {
            program.persist_subsystem.request_shutdown();
            program.persist_subsystem.mark_as_broken();
            notify(program, Notice::PersistenceBroken);
            Action::Continue
        },
        Pollable::Inotify => {
            notify(program, Notice::InotifyBroken);
            Action::Continue
        },
    }
}

/// The kind of a source.
#[derive(PartialEq, Eq, Structural, Clone, Copy, Debug)]
enum SourceKind {
    InputDevice,
    SignalFd,
    PersistSubsystem,
    Inotify,
}

fn source_kind(epoll: &Epoll, index: FileIndex) -> (kind: Option<SourceKind>)
    ensures
        match epoll@.get(index) {
            None => kind is None,
            Some(PollableView::InputDevice(_)) => kind == Some(SourceKind::InputDevice),
            Some(PollableView::SignalFd) => kind == Some(SourceKind::SignalFd),
            Some(PollableView::PersistSubsystem) => kind == Some(SourceKind::PersistSubsystem),
            Some(PollableView::Inotify) => kind == Some(SourceKind::Inotify),
        },
{
    match epoll.get(index) {
        None => None,
        Some(file) => match file {
            Pollable::InputDevice(_) => Some(SourceKind::InputDevice),
            Pollable::SignalFd => Some(SourceKind::SignalFd),
            Pollable::PersistSubsystem => Some(SourceKind::PersistSubsystem),
            Pollable::Inotify => Some(SourceKind::Inotify),
        },
    }
}

/// Has the device under `index` take note of what was read from it. Hands
/// back the events and whether the device is to be grabbed now.
fn poll_device(epoll: &mut Epoll, index: FileIndex, raw: &Vec<RawEvent>) -> (polled: (Vec<Event>, bool))
    requires
        old(epoll)@.wf(),
        old(epoll)@.get(index) matches Some(PollableView::InputDevice(_)),
    ensures
        final(epoll)@.wf(),
        ({
            let device = old(epoll)@.get(index)->0->InputDevice_0;
            let after = InputDeviceView { state: poll_spec(device.state, raw@, device.domain).state, ..device };
            &&& polled.0@ == poll_spec(device.state, raw@, device.domain).out
            &&& polled.1 == after.wants_grab()
            &&& final(epoll)@ == (EpollView {
                files: old(epoll)@.files.update(
                    position(old(epoll)@.files, index, 0),
                    RegisteredView { index, file: PollableView::InputDevice(after) },
                ),
                ..old(epoll)@
            })
        }),
{
    let mut events: Vec<Event> = Vec::new();
    let mut wants: bool = false;
    proof {
        crate::epoll::lemma_position(epoll@.files, index, 0);
    }
    match epoll.get_mut(index) {
        Some(file) => match file {
            Pollable::InputDevice(device) => {
                events = device.poll(raw);
                wants = device.grab_if_desired();
            },
            _ => {},
        },
        None => {},
    }
    proof {
        let at = position(old(epoll)@.files, index, 0);
        assert forall|i: int| 0 <= i < epoll@.files.len() implies (#[trigger] epoll@.files[i]).index == old(
            epoll,
        )@.files[i].index by {}
    }
    (events, wants)
}

/// What to do when a source is ready: `reading` is what the caller read
/// from it.
pub fn handle_ready_file(program: &mut Program, index: FileIndex, reading: Reading) -> (action: Action)
    requires
        old(program)@.wf(),
    ensures
        final(program)@.wf(),
        (final(program)@, action) == old(program)@.ready(index, reading@),
{
    let kind = match source_kind(&program.epoll, index) {
        Some(kind) => kind,
        None => {
            notify(program, Notice::NotRegistered { index });
            return Action::Continue;
        },
    };
    match kind {
        SourceKind::InputDevice => match reading {
            Reading::Device(Ok(raw)) => {
                let (events, wants) = poll_device(&mut program.epoll, index, &raw);
                run_events(&mut program.setup, &events);
                if wants {
                    notify(program, Notice::GrabWanted { index });
                }
                Action::Continue
            },
            Reading::Device(Err(error)) => {
                let path = device_path(&program.epoll, index);
                notify(program, Notice::Failed(error.with_context(Frame::PollingDevice { path })));
                handle_broken_file(program, index)
            },
            _ => {
                notify(program, Notice::WrongReading { index });
                Action::Continue
            },
        },
        SourceKind::SignalFd => match reading {
            Reading::Signal(SignalRead::Signal(signal)) => {
                if is_termination_signal(signal) {
                    Action::Exit
                } else {
                    // Other signals are of no concern here.
                    Action::Continue
                }
            },
            Reading::Signal(SignalRead::Interrupted) => Action::Continue,
            Reading::Signal(SignalRead::Failed) => {
                notify(program, Notice::SignalFdBroken);
                Action::Exit
            },
            _ => {
                notify(program, Notice::WrongReading { index });
                Action::Continue
            },
        },
        SourceKind::PersistSubsystem => match reading {
            Reading::Persist(Ok(device)) => {
                program.setup.update_caps(&device);
                match program.epoll.add_file(Pollable::InputDevice(device)) {
                    Ok(_) => {},
                    Err(error) => {
                        assert(error@.context =~= Seq::<FrameView>::empty());
                        notify(program, Notice::Failed(error.with_context(Frame::AddingOpenedDevice)));
                    },
                }
                Action::Continue
            },
            Reading::Persist(Err(error)) => {
                notify(program, Notice::Failed(error.with_context(Frame::PollingPersistence)));
                handle_broken_file(program, index)
            },
            _ => {
                notify(program, Notice::WrongReading { index });
                Action::Continue
            },
        },
        SourceKind::Inotify => match reading {
            Reading::Inotify => {
                program.persist_subsystem.try_reopen();
                Action::Continue
            },
            _ => {
                notify(program, Notice::WrongReading { index });
                Action::Continue
            },
        },
    }
}

impl Program {
    /// A program with a setup and no sources yet.
    pub fn new(setup: Setup) -> (program: Program)
        requires
            setup@.wf(),
        ensures
            program@.wf(),
            program@.setup == setup@,
            program@.epoll == (EpollView { files: Seq::empty(), counter: 0 }),
            program@.persist == (HostInterfaceView {
                status: crate::persist::InterfaceStatus::NotStarted,
                commands: Seq::empty(),
            }),
            program@.notices == Seq::<NoticeView>::empty(),
    {
        let program = Program {
            epoll: Epoll::new(),
            setup,
            persist_subsystem: HostInterfaceState::new(),
            notices: Vec::new(),
        };
        assert(program@.notices =~= Seq::<NoticeView>::empty());
        program
    }

    /// Hands over what the caller has not been told yet.
    pub fn take_notices(&mut self) -> (notices: Vec<Notice>)
        ensures
            notices@.map_values(|n: Notice| n@) == old(self)@.notices,
            final(self)@ == (ProgramView { notices: Seq::empty(), ..old(self)@ }),
    {
        let mut notices: Vec<Notice> = Vec::new();
        std::mem::swap(&mut notices, &mut self.notices);
        assert(self@.notices =~= Seq::<NoticeView>::empty());
        notices
    }
}

/// When the last input device breaks, the loop ends.
pub proof fn lemma_last_device_ends_loop(program: ProgramView, index: FileIndex)
    requires
        program.epoll.get(index) matches Some(PollableView::InputDevice(_)),
        program.epoll.removed(index).input_devices() == 0,
    ensures
        program.broken(index).1 == Action::Exit,
{
    let device = program.epoll.get(index)->0->InputDevice_0;
    let removed = ProgramView { epoll: program.epoll.removed(index), ..program };
    let lost = removed.device_lost(device);
    let is_device = |r: RegisteredView| r.file is InputDevice;
    if lost.epoll != removed.epoll {
        crate::seq_util::lemma_filter_push(
            removed.epoll.files,
            is_device,
            RegisteredView { index: removed.epoll.counter, file: PollableView::PersistSubsystem },
        );
    }
}

} // verus!
