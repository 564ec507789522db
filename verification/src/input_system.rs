//! All input devices together: which are open, what they can emit, and
//! which have broken and wait to be opened again.

use vstd::prelude::*;
use crate::capability::{device_input_caps, Capability};
use crate::epoll::{Epoll, EpollView, FileIndex, Pollable, PollableView, RegisteredView};
use crate::error::{ErrorKind, Frame, FrameView, InterruptError, RuntimeError};
use crate::event::{Event, Namespace};
use crate::input::{InputDevice, InputDeviceBlueprint};
use crate::persist::BlueprintView;
use crate::predevice::PreInputDevice;
use crate::program::{blueprint_of, capabilities_of};
use crate::seq_util::lemma_fold_left_take_step;

verus! {

/// What waiting on the input devices came to, piece by piece.
#[derive(PartialEq, Eq, Structural, Clone, Copy, Debug)]
pub enum EpollResult {
    /// A device emitted an event.
    Event(Event),
    /// The wait was interrupted.
    Interrupt,
    /// Something changed in the directories of input devices.
    Inotify,
    /// The device registered under this number broke.
    BrokenInputDevice(FileIndex),
}

pub struct InputSystem {
    epoll: Epoll,
    /// Everything that some input device may emit.
    capabilities_vec: Vec<Capability>,
    /// The broken devices that want to be opened again.
    broken_devices: Vec<InputDeviceBlueprint>,
    /// Whether it is time to try opening the broken devices.
    reopen_due: bool,
}

pub struct InputSystemView {
    pub epoll: EpollView,
    pub capabilities: Seq<Capability>,
    pub broken: Seq<BlueprintView>,
    pub reopen_due: bool,
}

impl View for InputSystem {
    type V = InputSystemView;

    closed spec fn view(&self) -> InputSystemView {
        InputSystemView {
            epoll: self.epoll@,
            capabilities: self.capabilities_vec@,
            broken: self.broken_devices@.map_values(|b: InputDeviceBlueprint| b@),
            reopen_due: self.reopen_due,
        }
    }
}

/// Every attempt to open a device succeeded.
pub open spec fn all_opened(attempts: Seq<Result<InputDevice, PreInputDevice>>) -> bool {
    forall|i: int| 0 <= i < attempts.len() ==> #[trigger] attempts[i] is Ok
}

/// The devices of the first `n` attempts, registered in order under the
/// numbers from zero.
pub open spec fn registered(attempts: Seq<Result<InputDevice, PreInputDevice>>, n: nat) -> Seq<RegisteredView> {
    Seq::new(
        n,
        |i: int| RegisteredView { index: i as u64, file: PollableView::InputDevice(attempts[i]->Ok_0@) },
    )
}

/// What the devices of the first `n` attempts may emit, device after
/// device, as it enters the stream.
pub open spec fn capabilities_of_all(attempts: Seq<Result<InputDevice, PreInputDevice>>, n: nat) -> Seq<
    Capability,
>
    decreases n,
{
    if n == 0 {
        Seq::empty()
    } else {
        capabilities_of_all(attempts, (n - 1) as nat) + device_input_caps(
            capabilities_of(attempts[n - 1]->Ok_0@),
        )
    }
}

/// The system while the pieces of a wait are gone through.
pub struct PollProgress {
    pub system: InputSystemView,
    pub events: Seq<Event>,
    pub interrupted: bool,
}

impl InputSystemView {
    pub open spec fn wf(self) -> bool {
        self.epoll.wf()
    }

    /// The device under `index` broke: it leaves the register and waits
    /// to be opened again. Nothing happens if no device is registered
    /// under the number.
    pub open spec fn device_broke(self, index: FileIndex) -> InputSystemView {
        match self.epoll.get(index) {
            Some(PollableView::InputDevice(device)) => InputSystemView {
                epoll: self.epoll.removed(index),
                broken: self.broken.push(blueprint_of(device)),
                ..self
            },
            _ => self,
        }
    }

    /// One piece of a wait is taken in. An interruption ends the poll when
    /// the program is to exit or nothing is registered; what comes after
    /// it is not looked at.
    pub open spec fn step(progress: PollProgress, result: EpollResult, should_exit: bool) -> PollProgress {
        if progress.interrupted {
            progress
        } else {
            match result {
                EpollResult::Event(event) => PollProgress { events: progress.events.push(event), ..progress },
                EpollResult::Interrupt => PollProgress {
                    interrupted: should_exit || progress.system.epoll.files.len() == 0,
                    ..progress
                },
                EpollResult::Inotify => PollProgress {
                    system: InputSystemView { reopen_due: true, ..progress.system },
                    ..progress
                },
                EpollResult::BrokenInputDevice(index) => PollProgress {
                    system: progress.system.device_broke(index),
                    ..progress
                },
            }
        }
    }

    pub open spec fn poll(self, results: Seq<EpollResult>, should_exit: bool) -> PollProgress {
        results.fold_left(
            PollProgress { system: self, events: Seq::empty(), interrupted: false },
            |progress: PollProgress, result: EpollResult| InputSystemView::step(progress, result, should_exit),
        )
    }

    /// A watch on the device directories is wanted: some device waits to
    /// be opened again and there is no watch.
    pub open spec fn wants_inotify(self) -> bool {
        self.broken.len() > 0 && !self.epoll.has_inotify()
    }
}

/// The system while attempts to open broken devices are taken in.
pub struct ReopenProgress {
    pub system: InputSystemView,
    /// The numbers under which the devices that came back are registered.
    pub added: Seq<FileIndex>,
}

/// A device that came back is registered, if a number is left for it; one
/// that did not goes on waiting.
pub open spec fn reopen_step(progress: ReopenProgress, attempt: Result<InputDevice, InputDeviceBlueprint>)
    -> ReopenProgress {
    let system = progress.system;
    match attempt {
        Ok(device) => if system.epoll.counter < u64::MAX {
            ReopenProgress {
                system: InputSystemView {
                    epoll: EpollView {
                        files: system.epoll.files.push(
                            RegisteredView {
                                index: system.epoll.counter,
                                file: PollableView::InputDevice(device@),
                            },
                        ),
                        counter: (system.epoll.counter + 1) as u64,
                    },
                    ..system
                },
                added: progress.added.push(system.epoll.counter),
            }
        } else {
            progress
        },
        Err(blueprint) => ReopenProgress {
            system: InputSystemView { broken: system.broken.push(blueprint@), ..system },
            ..progress
        },
    }
}

pub open spec fn reopen_all(system: InputSystemView, attempts: Seq<Result<InputDevice, InputDeviceBlueprint>>)
    -> ReopenProgress {
    attempts.fold_left(
        ReopenProgress { system: InputSystemView { reopen_due: false, ..system }, added: Seq::empty() },
        |progress: ReopenProgress, attempt: Result<InputDevice, InputDeviceBlueprint>|
            reopen_step(progress, attempt),
    )
}

impl InputSystem {
    /// Registers the devices that were opened. Fails at the first device
    /// that could not be opened, and says in the error's context at which
    /// path that device was looked for.
    pub fn from_pre_input_devices(opened: Vec<Result<InputDevice, PreInputDevice>>) -> (result: Result<
        InputSystem,
        RuntimeError,
    >)
        ensures
            result is Ok == all_opened(opened@),
            result matches Ok(system) ==> system@.wf() && system@ == (InputSystemView {
                epoll: EpollView {
                    files: registered(opened@, opened@.len()),
                    counter: opened@.len() as u64,
                },
                capabilities: capabilities_of_all(opened@, opened@.len()),
                broken: Seq::empty(),
                reopen_due: false,
            }),
            result matches Err(error) ==> error.kind_spec() == ErrorKind::OpenFailed && exists|i: int|
                0 <= i < opened@.len() && (#[trigger] opened@[i]) is Err && all_opened(opened@.take(i))
                    && error.context_spec() == seq![FrameView::OpeningDevice { path: opened@[i]->Err_0.path@ }],
    {
        let ghost attempts = opened@;
        let n = opened.len();
        let mut rest = opened;
        let mut capabilities_vec: Vec<Capability> = Vec::new();
        let mut epoll = Epoll::new();
        let mut i: usize = 0;
        assert(attempts.skip(0) =~= attempts);
        assert(epoll@.files =~= registered(attempts, 0));
        while i < n
            invariant
                i <= n,
                n == attempts.len(),
                attempts == opened@,
                rest@ == attempts.skip(i as int),
                all_opened(attempts.take(i as int)),
                epoll@.wf(),
                epoll@ == (EpollView { files: registered(attempts, i as nat), counter: i as u64 }),
                capabilities_vec@ == capabilities_of_all(attempts, i as nat),
            decreases n - i,
        {
            let attempt = rest.remove(0);
            assert(rest@ =~= attempts.skip(i + 1));
            assert(attempt == attempts[i as int]);
            match attempt {
                Ok(device) => {
                    let mut caps = device.capabilities().to_vec_from_domain_and_namespace(
                        device.domain(),
                        Namespace::Input,
                    );
                    assert(caps@ =~= device_input_caps(capabilities_of(device@)));
                    capabilities_vec.append(&mut caps);
                    match epoll.add_file(Pollable::InputDevice(device)) {
                        Ok(_) => {},
                        Err(_) => {
                            // A vector holds fewer devices than there are numbers.
                            assert(false);
                        },
                    }
                    assert(epoll@.files =~= registered(attempts, (i + 1) as nat));
                    assert forall|k: int| 0 <= k < i + 1 implies #[trigger] attempts.take(i + 1)[k] is Ok by {
                        if k < i {
                            assert(attempts.take(i as int)[k] is Ok);
                        }
                    }
                },
                Err(pre) => {
                    let ghost path = pre.path@;
                    let error = RuntimeError::new(ErrorKind::OpenFailed).with_context(
                        Frame::OpeningDevice { path: pre.path },
                    );
                    assert(error.context_spec() =~= seq![FrameView::OpeningDevice { path }]);
                    assert(attempts[i as int] is Err && attempts[i as int]->Err_0.path@ == path);
                    return Err(error);
                },
            }
            i += 1;
        }
        assert(attempts.take(n as int) =~= attempts);
        let system = InputSystem { epoll, capabilities_vec, broken_devices: Vec::new(), reopen_due: false };
        assert(system@.broken =~= Seq::<BlueprintView>::empty());
        Ok(system)
    }

    /// Takes in what a wait on the input devices came to. Hands back the
    /// events that the devices emitted, or says that the program is to
    /// stop.
    pub fn poll(&mut self, results: Vec<EpollResult>, should_exit: bool) -> (polled: Result<
        Vec<Event>,
        InterruptError,
    >)
        requires
            old(self)@.wf(),
        ensures
            final(self)@.wf(),
            final(self)@ == old(self)@.poll(results@, should_exit).system,
            polled is Err == old(self)@.poll(results@, should_exit).interrupted,
            polled matches Ok(events) ==> events@ == old(self)@.poll(results@, should_exit).events,
    {
        let ghost f = |progress: PollProgress, result: EpollResult|
            InputSystemView::step(progress, result, should_exit);
        let ghost init = PollProgress { system: old(self)@, events: Seq::empty(), interrupted: false };
        let mut events: Vec<Event> = Vec::new();
        let mut i: usize = 0;
        assert(results@.take(0) =~= Seq::<EpollResult>::empty());
        while i < results.len()
            invariant
                i <= results.len(),
                self@.wf(),
                f == (|progress: PollProgress, result: EpollResult|
                    InputSystemView::step(progress, result, should_exit)),
                init == (PollProgress { system: old(self)@, events: Seq::empty(), interrupted: false }),
                results@.take(i as int).fold_left(init, f) == (PollProgress {
                    system: self@,
                    events: events@,
                    interrupted: false,
                }),
            decreases results.len() - i,
        {
            proof {
                lemma_fold_left_take_step(results@, init, f, i as int);
            }
            match results[i] {
                EpollResult::Event(event) => {
                    events.push(event);
                },
                EpollResult::Interrupt => {
                    if should_exit || !self.epoll.has_files() {
                        proof {
                            lemma_stays_interrupted(
                                results@,
                                init,
                                should_exit,
                                (i + 1) as int,
                                results@.len() as int,
                            );
                            assert(results@.take(results@.len() as int) =~= results@);
                        }
                        return Err(InterruptError {  });
                    }
                },
                EpollResult::Inotify => {
                    self.reopen_due = true;
                },
                EpollResult::BrokenInputDevice(index) => {
                    let is_device = match self.epoll.get(index) {
                        Some(file) => match file {
                            Pollable::InputDevice(_) => true,
                            _ => false,
                        },
                        None => false,
                    };
                    if is_device {
                        match self.epoll.remove(index) {
                            Some(file) => match file {
                                Pollable::InputDevice(device) => {
                                    let ghost before = self@.broken;
                                    let ghost view = blueprint_of(device@);
                                    self.broken_devices.push(device.into_blueprint());
                                    assert(self@.broken =~= before.push(view));
                                },
                                _ => {},
                            },
                            None => {},
                        }
                    }
                },
            }
            i += 1;
        }
        assert(results@.take(results@.len() as int) =~= results@);
        Ok(events)
    }

    /// Everything that some input device may emit, as it enters the
    /// stream.
    pub fn get_capabilities(&self) -> (capabilities: &[Capability])
        ensures
            capabilities@ == self@.capabilities,
    {
        self.capabilities_vec.as_slice()
    }

    /// Whether the caller is to create a watch on the device directories
    /// and register it.
    pub fn request_inotify(&self) -> (wanted: bool)
        ensures
            wanted == self@.wants_inotify(),
    {
        self.broken_devices.len() > 0 && !self.epoll.has_inotify()
    }

    /// Registers the watch on the device directories.
    pub fn add_inotify(&mut self) -> (result: Result<FileIndex, RuntimeError>)
        requires
            old(self)@.wf(),
        ensures
            final(self)@.wf(),
            result is Ok == (old(self)@.epoll.counter < u64::MAX),
            result matches Ok(index) ==> index == old(self)@.epoll.counter && final(self)@ == (InputSystemView {
                epoll: EpollView {
                    files: old(self)@.epoll.files.push(RegisteredView { index, file: PollableView::Inotify }),
                    counter: (index + 1) as u64,
                },
                ..old(self)@
            }),
            result matches Err(error) ==> error.kind_spec() == ErrorKind::TooManySources && final(self)@ == old(
                self,
            )@,
    {
        self.epoll.add_file(Pollable::Inotify)
    }

    /// Whether it is time to try opening the broken devices.
    pub fn reopen_due(&self) -> (due: bool)
        ensures
            due == self@.reopen_due,
    {
        self.reopen_due
    }

    /// Hands over the devices that wait to be opened again, so that the
    /// caller can try to open them; none waits afterwards.
    pub fn take_broken_devices(&mut self) -> (broken: Vec<InputDeviceBlueprint>)
        ensures
            broken@.map_values(|b: InputDeviceBlueprint| b@) == old(self)@.broken,
            final(self)@ == (InputSystemView { broken: Seq::empty(), ..old(self)@ }),
    {
        let mut broken: Vec<InputDeviceBlueprint> = Vec::new();
        std::mem::swap(&mut broken, &mut self.broken_devices);
        assert(self@.broken =~= Seq::<BlueprintView>::empty());
        broken
    }

    /// Takes in the caller's attempts to open the broken devices: a device
    /// that came back is registered, one that did not goes on waiting.
    /// Hands back the numbers under which the devices are registered.
    pub fn try_reopen_broken_devices(&mut self, attempts: Vec<Result<InputDevice, InputDeviceBlueprint>>) -> (added:
        Vec<FileIndex>)
        requires
            old(self)@.wf(),
        ensures
            final(self)@.wf(),
            final(self)@ == reopen_all(old(self)@, attempts@).system,
            added@ == reopen_all(old(self)@, attempts@).added,
    {
        let ghost all = attempts@;
        let ghost f = |progress: ReopenProgress, attempt: Result<InputDevice, InputDeviceBlueprint>|
            reopen_step(progress, attempt);
        let ghost init = ReopenProgress {
            system: InputSystemView { reopen_due: false, ..old(self)@ },
            added: Seq::empty(),
        };
        let n = attempts.len();
        let mut rest = attempts;
        let mut added: Vec<FileIndex> = Vec::new();
        let mut i: usize = 0;
        self.reopen_due = false;
        assert(all.take(0) =~= Seq::<Result<InputDevice, InputDeviceBlueprint>>::empty());
        assert(all.skip(0) =~= all);
        while i < n
            invariant
                i <= n,
                n == all.len(),
                all == attempts@,
                rest@ == all.skip(i as int),
                self@.wf(),
                f == (|progress: ReopenProgress, attempt: Result<InputDevice, InputDeviceBlueprint>|
                    reopen_step(progress, attempt)),
                init == (ReopenProgress {
                    system: InputSystemView { reopen_due: false, ..old(self)@ },
                    added: Seq::empty(),
                }),
                all.take(i as int).fold_left(init, f) == (ReopenProgress { system: self@, added: added@ }),
            decreases n - i,
        {
            proof {
                lemma_fold_left_take_step(all, init, f, i as int);
            }
            let attempt = rest.remove(0);
            assert(rest@ =~= all.skip(i + 1));
            assert(attempt == all[i as int]);
            match attempt {
                Ok(device) => {
                    match self.epoll.add_file(Pollable::InputDevice(device)) {
                        Ok(index) => {
                            added.push(index);
                        },
                        Err(_) => {},
                    }
                },
                Err(blueprint) => {
                    let ghost before = self@.broken;
                    let ghost view = blueprint@;
                    self.broken_devices.push(blueprint);
                    assert(self@.broken =~= before.push(view));
                },
            }
            i += 1;
        }
        assert(all.take(all.len() as int) =~= all);
        added
    }
}

/// Once a poll is interrupted, nothing that follows changes its outcome.
proof fn lemma_stays_interrupted(
    results: Seq<EpollResult>,
    init: PollProgress,
    should_exit: bool,
    from: int,
    to: int,
)
    requires
        0 <= from <= to <= results.len(),
        results.take(from).fold_left(
            init,
            |progress: PollProgress, result: EpollResult| InputSystemView::step(progress, result, should_exit),
        ).interrupted,
    ensures
        results.take(to).fold_left(
            init,
            |progress: PollProgress, result: EpollResult| InputSystemView::step(progress, result, should_exit),
        ) == results.take(from).fold_left(
            init,
            |progress: PollProgress, result: EpollResult| InputSystemView::step(progress, result, should_exit),
        ),
    decreases to - from,
{
    if from < to {
        lemma_stays_interrupted(results, init, should_exit, from, to - 1);
        lemma_fold_left_take_step(
            results,
            init,
            |progress: PollProgress, result: EpollResult| InputSystemView::step(progress, result, should_exit),
            to - 1,
        );
    }
}

} // verus!
