//! The output side: which virtual devices exist, what they are able to
//! emit, and what is to be written to them.
//!
//! The library does not touch a device. It keeps a list of commands for
//! whoever owns the devices and trusts that they are carried out in order.

use vstd::prelude::*;
use crate::capability::{
    codes_compatible,
    codes_union,
    Capabilities,
    Capability,
    CodeCapability,
    RepeatInfo,
};
use crate::error::{ErrorKind, RuntimeError};
use crate::event::{Domain, Event};
use crate::predevice::PreOutputDevice;
use crate::seq_util::{flat_map, lemma_flat_map_take_step};

verus! {

/// Something to be done to the output device with the given number.
#[derive(PartialEq, Eq, Structural, Clone, Copy, Debug)]
pub enum OutputCommand {
    /// Create the device with the capabilities it has now.
    Create { device: usize },
    /// Destroy the device.
    Destroy { device: usize },
    /// Write the event to the device.
    Write { device: usize, event: Event },
    /// Have the device end its report.
    Syn { device: usize },
}

pub struct OutputDevice {
    domain: Domain,
    capabilities: Capabilities,
}

pub struct OutputDeviceView {
    pub domain: Domain,
    pub codes: Seq<CodeCapability>,
    pub rep_info: Option<RepeatInfo>,
}

impl View for OutputDevice {
    type V = OutputDeviceView;

    closed spec fn view(&self) -> OutputDeviceView {
        OutputDeviceView {
            domain: self.domain,
            codes: self.capabilities.codes@,
            rep_info: self.capabilities.rep_info,
        }
    }
}

impl OutputDevice {
    pub fn domain(&self) -> (domain: Domain)
        ensures
            domain == self@.domain,
    {
        self.domain
    }

    /// What the device is able to emit: its codes with their limits, and
    /// its key-repeat timing.
    pub fn capabilities(&self) -> (capabilities: &Capabilities)
        ensures
            capabilities.codes@ == self@.codes,
            capabilities.rep_info == self@.rep_info,
    {
        &self.capabilities
    }
}

pub struct OutputSystem {
    devices: Vec<OutputDevice>,
    commands: Vec<OutputCommand>,
}

pub struct OutputView {
    pub devices: Seq<OutputDeviceView>,
    /// The commands that wait to be carried out, oldest first.
    pub commands: Seq<OutputCommand>,
}

impl View for OutputSystem {
    type V = OutputView;

    closed spec fn view(&self) -> OutputView {
        OutputView { devices: self.devices@.map_values(|d: OutputDevice| d@), commands: self.commands@ }
    }
}

/// Where the first device on `domain` at or after `start` stands; the
/// number of devices when there is none.
pub open spec fn find_device(devices: Seq<OutputDeviceView>, domain: Domain, start: int) -> int
    decreases devices.len() - start,
{
    if start < 0 || start >= devices.len() {
        devices.len() as int
    } else if devices[start].domain == domain {
        start
    } else {
        find_device(devices, domain, start + 1)
    }
}

/// An event is written to the device of its domain; an event on a domain
/// without a device is written nowhere.
pub open spec fn routed(devices: Seq<OutputDeviceView>, event: Event) -> Seq<OutputCommand> {
    let device = find_device(devices, event.domain, 0);
    if device < devices.len() {
        seq![OutputCommand::Write { device: device as usize, event }]
    } else {
        Seq::empty()
    }
}

pub open spec fn route(devices: Seq<OutputDeviceView>, events: Seq<Event>) -> Seq<OutputCommand> {
    flat_map(events, |e: Event| routed(devices, e))
}

/// One end of report for each of `n` devices, in their order.
pub open spec fn syn_all(n: nat) -> Seq<OutputCommand> {
    Seq::new(n, |i: int| OutputCommand::Syn { device: i as usize })
}

pub open spec fn create_all(n: nat) -> Seq<OutputCommand> {
    Seq::new(n, |i: int| OutputCommand::Create { device: i as usize })
}

pub open spec fn distinct_domains(pre: Seq<PreOutputDevice>) -> bool {
    forall|i: int, j: int| 0 <= i < j < pre.len() ==> (#[trigger] pre[i]).domain != (#[trigger] pre[j]).domain
}

/// The devices as they are created: each can emit what `caps` announces on
/// its domain, and repeats keys as `caps` says there.
pub open spec fn created(pre: Seq<PreOutputDevice>, caps: Seq<Capability>) -> Seq<OutputDeviceView> {
    pre.map_values(
        |p: PreOutputDevice|
            OutputDeviceView {
                domain: p.domain,
                codes: Capabilities::codes_on_domain(caps, p.domain),
                rep_info: Capabilities::rep_info_on_domain(caps, p.domain),
            },
    )
}

/// A device can go on as it is when it can already emit all that `caps`
/// announces on its domain.
pub open spec fn can_stay(device: OutputDeviceView, caps: Seq<Capability>) -> bool {
    codes_compatible(Capabilities::codes_on_domain(caps, device.domain), device.codes)
}

/// A device that cannot stay is given what it had and what it lacked. It
/// keeps its key-repeat timing if it had one, and else takes that which
/// `caps` announces on its domain.
pub open spec fn update_device(device: OutputDeviceView, caps: Seq<Capability>) -> OutputDeviceView {
    if can_stay(device, caps) {
        device
    } else {
        OutputDeviceView {
            domain: device.domain,
            codes: codes_union(device.codes, Capabilities::codes_on_domain(caps, device.domain)),
            rep_info: if device.rep_info is Some {
                device.rep_info
            } else {
                Capabilities::rep_info_on_domain(caps, device.domain)
            },
        }
    }
}

/// The commands that recreate those of the first `n` devices that cannot
/// stay.
pub open spec fn recreations(devices: Seq<OutputDeviceView>, caps: Seq<Capability>, n: nat) -> Seq<
    OutputCommand,
>
    decreases n,
{
    if n == 0 || n > devices.len() {
        Seq::empty()
    } else {
        recreations(devices, caps, (n - 1) as nat) + (if can_stay(devices[n - 1], caps) {
            Seq::empty()
        } else {
            seq![
                OutputCommand::Destroy { device: (n - 1) as usize },
                OutputCommand::Create { device: (n - 1) as usize },
            ]
        })
    }
}

impl OutputView {
    pub open spec fn route_events(self, events: Seq<Event>) -> OutputView {
        OutputView { commands: self.commands + route(self.devices, events), ..self }
    }

    pub open spec fn synchronize(self) -> OutputView {
        OutputView { commands: self.commands + syn_all(self.devices.len()), ..self }
    }

    pub open spec fn update_caps(self, caps: Seq<Capability>) -> OutputView {
        OutputView {
            devices: self.devices.map_values(|d: OutputDeviceView| update_device(d, caps)),
            commands: self.commands + recreations(self.devices, caps, self.devices.len()),
        }
    }
}

/// Where every device can stay, an update changes nothing.
pub proof fn lemma_update_without_recreation(output: OutputView, caps: Seq<Capability>)
    requires
        forall|i: int| 0 <= i < output.devices.len() ==> can_stay(#[trigger] output.devices[i], caps),
    ensures
        output.update_caps(caps) == output,
{
    lemma_no_recreations(output.devices, caps, output.devices.len());
    assert(output.devices.map_values(|d: OutputDeviceView| update_device(d, caps)) =~= output.devices);
    assert(output.commands + Seq::<OutputCommand>::empty() =~= output.commands);
}

proof fn lemma_no_recreations(devices: Seq<OutputDeviceView>, caps: Seq<Capability>, n: nat)
    requires
        n <= devices.len(),
        forall|i: int| 0 <= i < devices.len() ==> can_stay(#[trigger] devices[i], caps),
    ensures
        recreations(devices, caps, n) == Seq::<OutputCommand>::empty(),
    decreases n,
{
    if n > 0 {
        lemma_no_recreations(devices, caps, (n - 1) as nat);
        assert(can_stay(devices[n - 1], caps));
    }
}

proof fn lemma_find_device_is(devices: Seq<OutputDeviceView>, domain: Domain, start: int, at: int)
    requires
        0 <= start <= at <= devices.len(),
        at < devices.len() ==> devices[at].domain == domain,
        forall|k: int| start <= k < at ==> (#[trigger] devices[k]).domain != domain,
    ensures
        find_device(devices, domain, start) == at,
    decreases at - start,
{
    if start < at {
        lemma_find_device_is(devices, domain, start + 1, at);
    }
}

impl OutputSystem {
    /// One device for each of `pre_output`, able to emit what `caps`
    /// announces on its domain.
    ///
    /// Refuses two devices on one domain. An event is written to one
    /// device, the first of its domain, so a second device of that domain
    /// would be created and never written to: that is an error of whoever
    /// asked for the devices, and it is better told than obeyed.
    pub fn create(pre_output: Vec<PreOutputDevice>, caps: Vec<Capability>) -> (result: Result<
        OutputSystem,
        RuntimeError,
    >)
        ensures
            result is Ok == distinct_domains(pre_output@),
            result matches Ok(output) ==> output@.devices == created(pre_output@, caps@) && output@.commands
                == create_all(pre_output@.len()),
            result matches Err(error) ==> error.context_spec().len() == 0 && exists|i: int, j: int|
                0 <= i < j < pre_output@.len() && (#[trigger] pre_output@[i]).domain == (
                #[trigger] pre_output@[j]).domain && error.kind_spec() == (ErrorKind::DuplicateOutputDomain {
                    domain: pre_output@[i].domain,
                }),
    {
        let n = pre_output.len();
        let mut j: usize = 0;
        while j < n
            invariant
                n == pre_output@.len(),
                j <= n,
                forall|a: int, b: int|
                    0 <= a < b < j ==> (#[trigger] pre_output@[a]).domain != (#[trigger] pre_output@[b]).domain,
            decreases n - j,
        {
            let mut i: usize = 0;
            while i < j
                invariant
                    n == pre_output@.len(),
                    i <= j < n,
                    forall|a: int| 0 <= a < i ==> (#[trigger] pre_output@[a]).domain != pre_output@[j as int].domain,
                decreases j - i,
            {
                if pre_output[i].domain == pre_output[j].domain {
                    return Err(
                        RuntimeError::new(ErrorKind::DuplicateOutputDomain { domain: pre_output[i].domain }),
                    );
                }
                i += 1;
            }
            j += 1;
        }
        let mut devices: Vec<OutputDevice> = Vec::new();
        let mut commands: Vec<OutputCommand> = Vec::new();
        let mut k: usize = 0;
        while k < n
            invariant
                n == pre_output@.len(),
                k <= n,
                devices@.len() == k,
                commands@.len() == k,
                forall|a: int| 0 <= a < k ==> (#[trigger] devices@[a])@ == created(pre_output@, caps@)[a],
                forall|a: int| 0 <= a < k ==> #[trigger] commands@[a] == create_all(n as nat)[a],
            decreases n - k,
        {
            let domain = pre_output[k].domain;
            devices.push(OutputDevice { domain, capabilities: Capabilities::from_caps(&caps, domain) });
            commands.push(OutputCommand::Create { device: k });
            k += 1;
        }
        let output = OutputSystem { devices, commands };
        assert(output@.devices =~= created(pre_output@, caps@));
        assert(output@.commands =~= create_all(n as nat));
        Ok(output)
    }

    pub fn device_count(&self) -> (n: usize)
        ensures
            n == self@.devices.len(),
    {
        self.devices.len()
    }

    /// The device with the given number.
    pub fn device(&self, device: usize) -> (r: Option<&OutputDevice>)
        ensures
            r is Some == (device < self@.devices.len()),
            r matches Some(d) ==> d@ == self@.devices[device as int],
    {
        if device < self.devices.len() {
            Some(&self.devices[device])
        } else {
            None
        }
    }

    /// The commands that wait to be carried out.
    pub fn commands(&self) -> (commands: &Vec<OutputCommand>)
        ensures
            commands@ == self@.commands,
    {
        &self.commands
    }

    /// Hands over the commands that wait; none wait afterwards.
    pub fn take_commands(&mut self) -> (commands: Vec<OutputCommand>)
        ensures
            commands@ == old(self)@.commands,
            final(self)@ == (OutputView { commands: Seq::empty(), ..old(self)@ }),
    {
        let mut commands: Vec<OutputCommand> = Vec::new();
        std::mem::swap(&mut commands, &mut self.commands);
        commands
    }

    fn find(&self, domain: Domain) -> (at: usize)
        ensures
            at as int == find_device(self@.devices, domain, 0),
            at <= self@.devices.len(),
    {
        let mut at: usize = 0;
        while at < self.devices.len() && self.devices[at].domain != domain
            invariant
                at <= self.devices.len(),
                forall|k: int| 0 <= k < at ==> (#[trigger] self@.devices[k]).domain != domain,
            decreases self.devices.len() - at,
        {
            at += 1;
        }
        proof {
            lemma_find_device_is(self@.devices, domain, 0, at as int);
        }
        at
    }

    /// Queues each event for the device of its domain.
    pub fn route_events(&mut self, events: &Vec<Event>)
        ensures
            final(self)@ == old(self)@.route_events(events@),
    {
        let ghost f = |e: Event| routed(old(self)@.devices, e);
        let mut i: usize = 0;
        assert(events@.take(0) =~= Seq::<Event>::empty());
        assert(old(self)@.commands + Seq::<OutputCommand>::empty() =~= old(self)@.commands);
        while i < events.len()
            invariant
                i <= events.len(),
                f == (|e: Event| routed(old(self)@.devices, e)),
                self@.devices == old(self)@.devices,
                self@.commands == old(self)@.commands + flat_map(events@.take(i as int), f),
            decreases events.len() - i,
        {
            proof {
                lemma_flat_map_take_step(events@, f, i as int);
            }
            let event = events[i];
            let device = self.find(event.domain);
            if device < self.devices.len() {
                self.commands.push(OutputCommand::Write { device, event });
            }
            assert(self@.commands =~= old(self)@.commands + flat_map(events@.take(i + 1), f));
            i += 1;
        }
        assert(events@.take(events@.len() as int) =~= events@);
    }

    /// Queues one end of report for every device.
    pub fn synchronize(&mut self)
        ensures
            final(self)@ == old(self)@.synchronize(),
    {
        let n = self.devices.len();
        let mut i: usize = 0;
        assert(old(self)@.commands + syn_all(n as nat).take(0) =~= old(self)@.commands);
        while i < n
            invariant
                i <= n,
                n == self@.devices.len(),
                self@.devices == old(self)@.devices,
                self@.commands == old(self)@.commands + syn_all(n as nat).take(i as int),
            decreases n - i,
        {
            self.commands.push(OutputCommand::Syn { device: i });
            assert(self@.commands =~= old(self)@.commands + syn_all(n as nat).take(i + 1));
            i += 1;
        }
        assert(syn_all(n as nat).take(n as int) =~= syn_all(n as nat));
    }

    /// Tells the devices what the stream may emit from now on. A device
    /// that could not emit all of it is recreated with more capabilities;
    /// none ever loses a capability.
    pub fn update_caps(&mut self, caps: Vec<Capability>)
        ensures
            final(self)@ == old(self)@.update_caps(caps@),
    {
        let n = self.devices.len();
        let mut i: usize = 0;
        assert(old(self)@.commands + Seq::<OutputCommand>::empty() =~= old(self)@.commands);
        while i < n
            invariant
                i <= n,
                n == self@.devices.len(),
                n == old(self)@.devices.len(),
                forall|k: int| 0 <= k < i ==> #[trigger] self@.devices[k] == update_device(old(self)@.devices[k], caps@),
                forall|k: int| i <= k < n ==> #[trigger] self@.devices[k] == old(self)@.devices[k],
                self@.commands == old(self)@.commands + recreations(old(self)@.devices, caps@, i as nat),
            decreases n - i,
        {
            let domain = self.devices[i].domain;
            let wanted = Capabilities::from_caps(&caps, domain);
            let ghost before = self@;
            assert(self@.devices[i as int] == old(self)@.devices[i as int]);
            if !wanted.is_compatible_with(&self.devices[i].capabilities) {
                let capabilities = self.devices[i].capabilities.union(&wanted);
                self.devices.set(i, OutputDevice { domain, capabilities });
                self.commands.push(OutputCommand::Destroy { device: i });
                self.commands.push(OutputCommand::Create { device: i });
                assert forall|k: int| 0 <= k < n && k != i implies #[trigger] self@.devices[k]
                    == before.devices[k] by {}
            }
            assert(self@.commands =~= old(self)@.commands + recreations(
                old(self)@.devices,
                caps@,
                (i + 1) as nat,
            ));
            i += 1;
        }
        assert(self@.devices =~= old(self)@.devices.map_values(|d: OutputDeviceView| update_device(d, caps@)));
    }
}

} // verus!
