//! The link to the helper that opens broken devices again.
//!
//! The helper lives outside the dispatch loop. The library decides what it
//! is to be told and keeps the commands for the caller to send.

use vstd::prelude::*;
use crate::capability::{CodeCapability, RepeatInfo};
use crate::epoll::{Epoll, EpollView, FileIndex, Pollable, PollableView, RegisteredView};
use crate::error::{ErrorKind, RuntimeError};
use crate::event::Domain;
use crate::input::InputDeviceBlueprint;
use crate::predevice::{GrabMode, PersistMode};

verus! {

pub struct BlueprintView {
    pub path: Seq<char>,
    pub domain: Domain,
    pub grab_mode: GrabMode,
    pub persist_mode: PersistMode,
    pub codes: Seq<CodeCapability>,
    pub rep_info: Option<RepeatInfo>,
}

impl View for InputDeviceBlueprint {
    type V = BlueprintView;

    open spec fn view(&self) -> BlueprintView {
        BlueprintView {
            path: self.pre_device.path@,
            domain: self.pre_device.domain,
            grab_mode: self.pre_device.grab_mode,
            persist_mode: self.pre_device.persist_mode,
            codes: self.capabilities.codes@,
            rep_info: self.capabilities.rep_info,
        }
    }
}

/// What the helper is to be told.
pub enum PersistCommand {
    /// Start the helper.
    Start,
    /// Watch for this device and open it when it is back.
    AddBlueprint(InputDeviceBlueprint),
    /// Try now to open every device that is being watched for.
    TryReopen,
    /// Stop.
    Shutdown,
}

pub enum PersistCommandView {
    Start,
    AddBlueprint(BlueprintView),
    TryReopen,
    Shutdown,
}

impl View for PersistCommand {
    type V = PersistCommandView;

    open spec fn view(&self) -> PersistCommandView {
        match self {
            PersistCommand::Start => PersistCommandView::Start,
            PersistCommand::AddBlueprint(blueprint) => PersistCommandView::AddBlueprint(blueprint@),
            PersistCommand::TryReopen => PersistCommandView::TryReopen,
            PersistCommand::Shutdown => PersistCommandView::Shutdown,
        }
    }
}

/// Whether the helper runs.
#[derive(PartialEq, Eq, Structural, Clone, Copy, Debug)]
pub enum InterfaceStatus {
    /// It was never needed.
    NotStarted,
    /// It runs, and its link is registered under this number.
    Running { index: FileIndex },
    /// It broke and is not to be used again.
    Broken,
}

pub struct HostInterfaceState {
    status: InterfaceStatus,
    commands: Vec<PersistCommand>,
}

pub struct HostInterfaceView {
    pub status: InterfaceStatus,
    /// What the helper is still to be told, oldest first.
    pub commands: Seq<PersistCommandView>,
}

impl View for HostInterfaceState {
    type V = HostInterfaceView;

    closed spec fn view(&self) -> HostInterfaceView {
        HostInterfaceView { status: self.status, commands: self.commands@.map_values(|c: PersistCommand| c@) }
    }
}

impl HostInterfaceView {
    /// The helper is wanted. If it was never started and a number is left
    /// for its link, it is started now; if it broke, it stays broken.
    pub open spec fn require(self, epoll: EpollView) -> (HostInterfaceView, EpollView) {
        if self.status == InterfaceStatus::NotStarted && epoll.counter < u64::MAX {
            (
                HostInterfaceView {
                    status: InterfaceStatus::Running { index: epoll.counter },
                    commands: self.commands.push(PersistCommandView::Start),
                },
                EpollView {
                    files: epoll.files.push(
                        RegisteredView { index: epoll.counter, file: PollableView::PersistSubsystem },
                    ),
                    counter: (epoll.counter + 1) as u64,
                },
            )
        } else {
            (self, epoll)
        }
    }

    pub open spec fn told(self, command: PersistCommandView) -> HostInterfaceView {
        if self.status is Running {
            HostInterfaceView { commands: self.commands.push(command), ..self }
        } else {
            self
        }
    }
}

impl HostInterfaceState {
    pub fn new() -> (state: HostInterfaceState)
        ensures
            state@ == (HostInterfaceView { status: InterfaceStatus::NotStarted, commands: Seq::empty() }),
    {
        let state = HostInterfaceState { status: InterfaceStatus::NotStarted, commands: Vec::new() };
        assert(state@.commands =~= Seq::<PersistCommandView>::empty());
        state
    }

    pub fn status(&self) -> (status: InterfaceStatus)
        ensures
            status == self@.status,
    {
        self.status
    }

    /// Sees to it that the helper runs and says whether it does.
    pub fn require(&mut self, epoll: &mut Epoll) -> (available: bool)
        requires
            old(epoll)@.wf(),
        ensures
            final(epoll)@.wf(),
            (final(self)@, final(epoll)@) == old(self)@.require(old(epoll)@),
            available == final(self)@.status is Running,
    {
        match self.status {
            InterfaceStatus::NotStarted => {
                match epoll.add_file(Pollable::PersistSubsystem) {
                    Ok(index) => {
                        self.status = InterfaceStatus::Running { index };
                        self.commands.push(PersistCommand::Start);
                        assert(self@.commands =~= old(self)@.commands.push(PersistCommandView::Start));
                        true
                    },
                    Err(_) => false,
                }
            },
            InterfaceStatus::Running { index: _ } => true,
            InterfaceStatus::Broken => false,
        }
    }

    fn tell(&mut self, command: PersistCommand) -> (told: bool)
        ensures
            final(self)@ == old(self)@.told(command@),
            told == old(self)@.status is Running,
    {
        match self.status {
            InterfaceStatus::Running { index: _ } => {
                let ghost view = command@;
                self.commands.push(command);
                assert(self@.commands =~= old(self)@.commands.push(view));
                true
            },
            _ => false,
        }
    }

    /// Has the helper watch for a device. Fails when the helper does not
    /// run.
    pub fn add_blueprint(&mut self, blueprint: InputDeviceBlueprint) -> (result: Result<(), RuntimeError>)
        ensures
            final(self)@ == old(self)@.told(PersistCommandView::AddBlueprint(blueprint@)),
            result is Ok == old(self)@.status is Running,
            result matches Err(error) ==> error.kind_spec() == ErrorKind::PersistenceFailed
                && error.context_spec().len() == 0,
    {
        if self.tell(PersistCommand::AddBlueprint(blueprint)) {
            Ok(())
        } else {
            Err(RuntimeError::new(ErrorKind::PersistenceFailed))
        }
    }

    /// Has the helper try now to open what it watches for.
    pub fn try_reopen(&mut self)
        ensures
            final(self)@ == old(self)@.told(PersistCommandView::TryReopen),
    {
        self.tell(PersistCommand::TryReopen);
    }

    /// Has the helper stop.
    pub fn request_shutdown(&mut self)
        ensures
            final(self)@ == old(self)@.told(PersistCommandView::Shutdown),
    {
        self.tell(PersistCommand::Shutdown);
    }

    /// The helper broke: it is not used again.
    pub fn mark_as_broken(&mut self)
        ensures
            final(self)@ == (HostInterfaceView { status: InterfaceStatus::Broken, ..old(self)@ }),
    {
        self.status = InterfaceStatus::Broken;
    }

    /// Ends the use of the helper when the dispatch loop ends: a helper
    /// that runs is told to stop and its link leaves the register.
    pub fn await_shutdown(&mut self, epoll: &mut Epoll)
        requires
            old(epoll)@.wf(),
        ensures
            final(epoll)@.wf(),
            match old(self)@.status {
                InterfaceStatus::Running { index } => final(self)@ == (HostInterfaceView {
                    status: InterfaceStatus::NotStarted,
                    commands: old(self)@.commands.push(PersistCommandView::Shutdown),
                }) && final(epoll)@ == old(epoll)@.removed(index),
                _ => final(self)@ == old(self)@ && final(epoll)@ == old(epoll)@,
            },
    {
        match self.status {
            InterfaceStatus::Running { index } => {
                self.tell(PersistCommand::Shutdown);
                let _ = epoll.remove(index);
                self.status = InterfaceStatus::NotStarted;
            },
            _ => {},
        }
    }

    /// Hands over what the helper is to be told; nothing is left to tell.
    pub fn take_commands(&mut self) -> (commands: Vec<PersistCommand>)
        ensures
            commands@.map_values(|c: PersistCommand| c@) == old(self)@.commands,
            final(self)@ == (HostInterfaceView { commands: Seq::empty(), ..old(self)@ }),
    {
        let mut commands: Vec<PersistCommand> = Vec::new();
        std::mem::swap(&mut commands, &mut self.commands);
        assert(self@.commands =~= Seq::<PersistCommandView>::empty());
        commands
    }
}

} // verus!
