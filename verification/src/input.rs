//! Input devices as the stream sees them: what a device can emit, the
//! value that each of its codes had last, and whether it is grabbed.
//!
//! The device file itself is with the caller, who reads it and tells the
//! library what came of it.

use vstd::prelude::*;
use crate::capability::{AbsInfo, Capabilities, CodeCapability, RepeatInfo};
use crate::error::{ErrorKind, RuntimeError};
use crate::event::{is_abs_mt, is_abs_mt_spec, Domain, Event, EventCode, EventType, EventValue, Namespace, EV_ABS, EV_KEY};
use crate::predevice::{GrabMode, PersistMode, PreInputDevice};
use crate::seq_util::{lemma_filter_empty, lemma_filter_take_step, lemma_fold_left_take_step};
use crate::sys::eagain;

verus! {

/// The status with which the kernel's input library hands out an event in
/// the ordinary course.
pub const READ_STATUS_SUCCESS: i32 = 0;

/// The status with which it hands out an event while it makes up for
/// events that were dropped.
pub const READ_STATUS_SYNC: i32 = 1;

/// The status that says nothing is left to read: the negative of the
/// system's number for "try again".
pub const READ_STATUS_AGAIN: i32 = -11;

/// How the next event is to be asked for.
#[derive(PartialEq, Eq, Structural, Clone, Copy, Debug)]
pub enum ReadFlag {
    Normal,
    Sync,
}

/// What a read status means.
#[derive(PartialEq, Eq, Structural, Clone, Copy, Debug)]
pub enum ReadStatus {
    /// An event was read.
    Success,
    /// An event was read, and events were dropped before it: the reads
    /// that follow must ask for what was missed.
    Sync,
    /// Nothing is left to read for now.
    Again,
    /// The device is broken.
    Unknown,
}

/// What to do after a read.
#[derive(PartialEq, Eq, Structural, Clone, Copy, Debug)]
pub enum ReadStep {
    /// Read once more.
    More,
    /// All has been read.
    Done,
}

pub open spec fn classify_read_status_spec(status: i32) -> ReadStatus {
    if status == READ_STATUS_SUCCESS {
        ReadStatus::Success
    } else if status == READ_STATUS_SYNC {
        ReadStatus::Sync
    } else if status == READ_STATUS_AGAIN {
        ReadStatus::Again
    } else {
        ReadStatus::Unknown
    }
}

#[verifier::when_used_as_spec(classify_read_status_spec)]
pub fn classify_read_status(status: i32) -> (r: ReadStatus)
    ensures
        r == classify_read_status_spec(status),
{
    let again: i32 = eagain();
    if status == READ_STATUS_SUCCESS {
        ReadStatus::Success
    } else if status == READ_STATUS_SYNC {
        ReadStatus::Sync
    } else if status == -again {
        ReadStatus::Again
    } else {
        ReadStatus::Unknown
    }
}

/// An event as the kernel hands it out.
#[derive(PartialEq, Eq, Structural, Clone, Copy, Debug)]
pub struct RawEvent {
    pub ev_type: EventType,
    pub code: EventCode,
    pub value: EventValue,
}

/// Drains a device: says how to ask for the next event and collects what
/// is read, until nothing is left.
pub struct RawReader {
    should_sync: bool,
    events: Vec<RawEvent>,
}

pub struct RawReaderView {
    pub should_sync: bool,
    pub events: Seq<RawEvent>,
}

impl View for RawReader {
    type V = RawReaderView;

    closed spec fn view(&self) -> RawReaderView {
        RawReaderView { should_sync: self.should_sync, events: self.events@ }
    }
}

impl RawReader {
    pub fn new() -> (reader: RawReader)
        ensures
            reader@ == (RawReaderView { should_sync: false, events: Seq::empty() }),
    {
        RawReader { should_sync: false, events: Vec::new() }
    }

    /// How the next event is to be asked for.
    pub fn flag(&self) -> (flag: ReadFlag)
        ensures
            flag == if self@.should_sync { ReadFlag::Sync } else { ReadFlag::Normal },
    {
        if self.should_sync {
            ReadFlag::Sync
        } else {
            ReadFlag::Normal
        }
    }

    /// Takes note of one read: of its status and, where the status says
    /// that an event was read, of the event.
    pub fn accept(&mut self, status: i32, event: RawEvent) -> (step: Result<ReadStep, RuntimeError>)
        ensures
            match classify_read_status_spec(status) {
                ReadStatus::Success => step == Ok::<ReadStep, RuntimeError>(ReadStep::More) && final(self)@ == (
                RawReaderView { events: old(self)@.events.push(event), ..old(self)@ }),
                ReadStatus::Sync => step == Ok::<ReadStep, RuntimeError>(ReadStep::More) && final(self)@ == (
                RawReaderView { events: old(self)@.events.push(event), should_sync: true }),
                ReadStatus::Again => step == Ok::<ReadStep, RuntimeError>(ReadStep::Done) && final(self)@
                    == old(self)@,
                ReadStatus::Unknown => step matches Err(error) && error.kind_spec() == (
                ErrorKind::UnknownReadStatus { status }) && error.context_spec().len() == 0 && final(self)@
                    == old(self)@,
            },
    {
        match classify_read_status(status) {
            ReadStatus::Success => {
                self.events.push(event);
                Ok(ReadStep::More)
            },
            ReadStatus::Sync => {
                self.events.push(event);
                self.should_sync = true;
                Ok(ReadStep::More)
            },
            ReadStatus::Again => Ok(ReadStep::Done),
            ReadStatus::Unknown => Err(RuntimeError::new(ErrorKind::UnknownReadStatus { status })),
        }
    }

    /// What was read, in the order in which it was read.
    pub fn into_events(self) -> (events: Vec<RawEvent>)
        ensures
            events@ == self@.events,
    {
        self.events
    }
}

/// The value that a code of a device had last.
#[derive(PartialEq, Eq, Structural, Clone, Copy, Debug)]
pub struct CodeState {
    pub ev_type: EventType,
    pub code: EventCode,
    pub value: EventValue,
}

/// Where the first entry for `(ev_type, code)` at or after `start` stands;
/// the length of `state` when there is none.
pub open spec fn find_state(state: Seq<CodeState>, ev_type: EventType, code: EventCode, start: int) -> int
    decreases state.len() - start,
{
    if start < 0 || start >= state.len() {
        state.len() as int
    } else if state[start].ev_type == ev_type && state[start].code == code {
        start
    } else {
        find_state(state, ev_type, code, start + 1)
    }
}

/// The value that `(ev_type, code)` had last; zero if it was never seen.
pub open spec fn last_value(state: Seq<CodeState>, ev_type: EventType, code: EventCode) -> EventValue {
    let at = find_state(state, ev_type, code, 0);
    if at < state.len() {
        state[at].value
    } else {
        0
    }
}

/// The state once `raw` has been seen.
pub open spec fn noted(state: Seq<CodeState>, raw: RawEvent) -> Seq<CodeState> {
    let at = find_state(state, raw.ev_type, raw.code, 0);
    let entry = CodeState { ev_type: raw.ev_type, code: raw.code, value: raw.value };
    if at < state.len() {
        state.update(at, entry)
    } else {
        state.push(entry)
    }
}

/// Some key of the device is pressed.
pub open spec fn any_key_pressed(state: Seq<CodeState>) -> bool {
    exists|i: int| 0 <= i < state.len() && (#[trigger] state[i]).ev_type == EV_KEY && state[i].value > 0
}

proof fn lemma_find_state_is(state: Seq<CodeState>, ev_type: EventType, code: EventCode, start: int, at: int)
    requires
        0 <= start <= at <= state.len(),
        at < state.len() ==> state[at].ev_type == ev_type && state[at].code == code,
        forall|k: int| start <= k < at ==> !((#[trigger] state[k]).ev_type == ev_type && state[k].code == code),
    ensures
        find_state(state, ev_type, code, start) == at,
    decreases at - start,
{
    if start < at {
        lemma_find_state_is(state, ev_type, code, start + 1, at);
    }
}

/// The events of a poll so far, and the state after them.
pub struct PollStep {
    pub state: Seq<CodeState>,
    pub out: Seq<Event>,
}

/// The event that `raw` becomes: it is on the device's domain, has not
/// entered the stream yet, and knows the value its code had before.
pub open spec fn decoded(state: Seq<CodeState>, raw: RawEvent, domain: Domain) -> Event {
    Event {
        ev_type: raw.ev_type,
        code: raw.code,
        value: raw.value,
        previous_value: last_value(state, raw.ev_type, raw.code),
        domain,
        namespace: Namespace::Input,
    }
}

pub open spec fn poll_spec(state: Seq<CodeState>, raw: Seq<RawEvent>, domain: Domain) -> PollStep {
    raw.fold_left(
        PollStep { state, out: Seq::empty() },
        |acc: PollStep, r: RawEvent|
            PollStep { state: noted(acc.state, r), out: acc.out.push(decoded(acc.state, r, domain)) },
    )
}

/// The half of the sum of the limits, rounded towards zero; zero where the
/// sum cannot be had.
pub open spec fn midpoint(info: AbsInfo) -> EventValue {
    let sum = info.min_value + info.max_value;
    if sum < i32::MIN || sum > i32::MAX {
        0
    } else if sum >= 0 {
        (sum / 2) as i32
    } else {
        (-((-sum) / 2)) as i32
    }
}

/// The value that a code is taken to have when its device is opened. For a
/// multi-touch axis what the kernel says is not defined, and a value in
/// the middle of the axis stands in its place.
pub open spec fn initial_value(code: CodeCapability, queried: EventValue) -> EventValue {
    if is_abs_mt_spec(code.ev_type, code.code) {
        match code.abs_info {
            Some(info) => midpoint(info),
            None => 0,
        }
    } else {
        queried
    }
}

pub fn compute_initial_value(code: &CodeCapability, queried: EventValue) -> (value: EventValue)
    ensures
        value == initial_value(*code, queried),
{
    if is_abs_mt(code.ev_type, code.code) {
        match code.abs_info {
            Some(info) => match info.min_value.checked_add(info.max_value) {
                Some(sum) => sum / 2,
                None => 0,
            },
            None => 0,
        }
    } else {
        queried
    }
}

/// What the kernel gave for the code at place `i` when asked; zero where it
/// was not asked.
pub open spec fn queried_value(queried: Seq<EventValue>, i: int) -> EventValue {
    if 0 <= i < queried.len() {
        queried[i]
    } else {
        0
    }
}

/// The state of a device that has just been opened: for each of its codes
/// the value that the kernel gave when asked, but see `initial_value`.
/// `queried` holds the kernel's answers in the order of the codes.
pub fn get_device_state(capabilities: &Capabilities, queried: &Vec<EventValue>) -> (state: Vec<CodeState>)
    ensures
        state@.len() == capabilities.codes@.len(),
        forall|i: int|
            0 <= i < state@.len() ==> #[trigger] state@[i] == (CodeState {
                ev_type: capabilities.codes@[i].ev_type,
                code: capabilities.codes@[i].code,
                value: initial_value(capabilities.codes@[i], queried_value(queried@, i)),
            }),
{
    let mut state: Vec<CodeState> = Vec::new();
    let mut i: usize = 0;
    while i < capabilities.codes.len()
        invariant
            i <= capabilities.codes.len(),
            state@.len() == i,
            forall|k: int|
                0 <= k < i ==> #[trigger] state@[k] == (CodeState {
                    ev_type: capabilities.codes@[k].ev_type,
                    code: capabilities.codes@[k].code,
                    value: initial_value(capabilities.codes@[k], queried_value(queried@, k)),
                }),
        decreases capabilities.codes.len() - i,
    {
        let code = capabilities.codes[i];
        let answer: EventValue = if i < queried.len() {
            queried[i]
        } else {
            0
        };
        state.push(
            CodeState { ev_type: code.ev_type, code: code.code, value: compute_initial_value(&code, answer) },
        );
        i += 1;
    }
    state
}

/// What the kernel said of one code when the device was asked about it.
#[derive(PartialEq, Eq, Structural, Clone, Copy, Debug)]
pub struct ProbedCode {
    pub ev_type: EventType,
    pub code: EventCode,
    /// Whether the device has the code.
    pub supported: bool,
    /// The limits of the code, where the device gave any.
    pub abs_info: Option<AbsInfo>,
}

/// What the kernel said when it was asked for the key-repeat timing.
#[derive(PartialEq, Eq, Structural, Clone, Copy, Debug)]
pub struct ProbedRepeat {
    /// Zero when the device repeats keys.
    pub status: i32,
    pub delay: EventValue,
    pub period: EventValue,
}

/// A code counts when the device has it and has its type; only absolute
/// axes keep their limits.
pub open spec fn code_counts(types: Seq<EventType>, probed: ProbedCode) -> bool {
    probed.supported && types.contains(probed.ev_type)
}

pub open spec fn probed_capability(probed: ProbedCode) -> CodeCapability {
    CodeCapability {
        ev_type: probed.ev_type,
        code: probed.code,
        abs_info: if probed.ev_type == EV_ABS { probed.abs_info } else { None },
    }
}

pub open spec fn probed_codes(types: Seq<EventType>, codes: Seq<ProbedCode>) -> Seq<CodeCapability> {
    codes.filter(|p: ProbedCode| code_counts(types, p)).map_values(|p: ProbedCode| probed_capability(p))
}

fn has_type(types: &Vec<EventType>, ev_type: EventType) -> (r: bool)
    ensures
        r == types@.contains(ev_type),
{
    let mut i: usize = 0;
    while i < types.len()
        invariant
            i <= types.len(),
            forall|k: int| 0 <= k < i ==> types@[k] != ev_type,
        decreases types.len() - i,
    {
        if types[i] == ev_type {
            return true;
        }
        i += 1;
    }
    false
}

/// The capabilities of a device, from what the kernel said of it: the
/// types it supports, the known codes with the kernel's word on each, and
/// the key-repeat timing.
pub fn get_capabilities(types: &Vec<EventType>, codes: &Vec<ProbedCode>, repeat: ProbedRepeat) -> (capabilities:
    Capabilities)
    ensures
        capabilities.codes@ == probed_codes(types@, codes@),
        capabilities.rep_info == if repeat.status == 0 {
            Some(RepeatInfo { delay: repeat.delay, period: repeat.period })
        } else {
            None
        },
{
    let ghost counts = |p: ProbedCode| code_counts(types@, p);
    let ghost to_code = |p: ProbedCode| probed_capability(p);
    let mut supported: Vec<CodeCapability> = Vec::new();
    let mut i: usize = 0;
    proof {
        lemma_filter_empty(counts);
        assert(codes@.take(0) =~= Seq::<ProbedCode>::empty());
    }
    while i < codes.len()
        invariant
            i <= codes.len(),
            counts == (|p: ProbedCode| code_counts(types@, p)),
            to_code == (|p: ProbedCode| probed_capability(p)),
            supported@ == codes@.take(i as int).filter(counts).map_values(to_code),
        decreases codes.len() - i,
    {
        proof {
            lemma_filter_take_step(codes@, counts, i as int);
        }
        let probed = codes[i];
        if probed.supported && has_type(types, probed.ev_type) {
            supported.push(
                CodeCapability {
                    ev_type: probed.ev_type,
                    code: probed.code,
                    abs_info: if probed.ev_type == EV_ABS {
                        probed.abs_info
                    } else {
                        None
                    },
                },
            );
            assert(supported@ =~= codes@.take(i + 1).filter(counts).map_values(to_code));
        }
        i += 1;
    }
    assert(codes@.take(codes@.len() as int) =~= codes@);
    let rep_info = if repeat.status == 0 {
        Some(RepeatInfo { delay: repeat.delay, period: repeat.period })
    } else {
        None
    };
    Capabilities { codes: supported, rep_info }
}

/// An input device that is open.
pub struct InputDevice {
    path: String,
    capabilities: Capabilities,
    /// Whether and how the user wants the device grabbed.
    grab_mode: GrabMode,
    persist_mode: PersistMode,
    /// Whether the device is grabbed.
    grabbed: bool,
    /// The tag by which the events of the device are known.
    domain: Domain,
    /// The value that each code had last.
    state: Vec<CodeState>,
}

pub struct InputDeviceView {
    pub path: Seq<char>,
    pub codes: Seq<CodeCapability>,
    pub rep_info: Option<RepeatInfo>,
    pub grab_mode: GrabMode,
    pub persist_mode: PersistMode,
    pub grabbed: bool,
    pub domain: Domain,
    pub state: Seq<CodeState>,
}

impl View for InputDevice {
    type V = InputDeviceView;

    closed spec fn view(&self) -> InputDeviceView {
        InputDeviceView {
            path: self.path@,
            codes: self.capabilities.codes@,
            rep_info: self.capabilities.rep_info,
            grab_mode: self.grab_mode,
            persist_mode: self.persist_mode,
            grabbed: self.grabbed,
            domain: self.domain,
            state: self.state@,
        }
    }
}

impl InputDeviceView {
    /// The device is to be grabbed now: it is not grabbed yet, and the
    /// user wants it grabbed regardless, or as soon as no key is pressed
    /// and none is.
    pub open spec fn wants_grab(self) -> bool {
        !self.grabbed && match self.grab_mode {
            GrabMode::Never => false,
            GrabMode::Force => true,
            GrabMode::Auto => !any_key_pressed(self.state),
        }
    }
}

/// What is needed to open a device again after it broke.
pub struct InputDeviceBlueprint {
    pub pre_device: PreInputDevice,
    pub capabilities: Capabilities,
}

impl InputDevice {
    /// The device as it stands once its file has been opened and the
    /// kernel has been asked about it. It is not grabbed yet.
    pub fn open(pre_device: PreInputDevice, capabilities: Capabilities, state: Vec<CodeState>) -> (device:
        InputDevice)
        ensures
            device@ == (InputDeviceView {
                path: pre_device.path@,
                codes: capabilities.codes@,
                rep_info: capabilities.rep_info,
                grab_mode: pre_device.grab_mode,
                persist_mode: pre_device.persist_mode,
                grabbed: false,
                domain: pre_device.domain,
                state: state@,
            }),
    {
        InputDevice {
            path: pre_device.path,
            capabilities,
            grab_mode: pre_device.grab_mode,
            persist_mode: pre_device.persist_mode,
            grabbed: false,
            domain: pre_device.domain,
            state,
        }
    }

    pub fn domain(&self) -> (domain: Domain)
        ensures
            domain == self@.domain,
    {
        self.domain
    }

    pub fn path(&self) -> (path: &String)
        ensures
            path@ == self@.path,
    {
        &self.path
    }

    pub fn capabilities(&self) -> (capabilities: &Capabilities)
        ensures
            capabilities.codes@ == self@.codes,
            capabilities.rep_info == self@.rep_info,
    {
        &self.capabilities
    }

    pub fn persist_mode(&self) -> (mode: PersistMode)
        ensures
            mode == self@.persist_mode,
    {
        self.persist_mode
    }

    pub fn is_grabbed(&self) -> (grabbed: bool)
        ensures
            grabbed == self@.grabbed,
    {
        self.grabbed
    }

    fn find(&self, ev_type: EventType, code: EventCode) -> (at: usize)
        ensures
            at as int == find_state(self@.state, ev_type, code, 0),
            at <= self@.state.len(),
    {
        let mut at: usize = 0;
        while at < self.state.len() && !(self.state[at].ev_type == ev_type && self.state[at].code == code)
            invariant
                at <= self.state.len(),
                forall|k: int|
                    0 <= k < at ==> !((#[trigger] self.state@[k]).ev_type == ev_type && self.state@[k].code
                        == code),
            decreases self.state.len() - at,
        {
            at += 1;
        }
        proof {
            lemma_find_state_is(self.state@, ev_type, code, 0, at as int);
        }
        at
    }

    /// The value that `(ev_type, code)` had last; zero if the device never
    /// emitted it.
    pub fn value_of(&self, ev_type: EventType, code: EventCode) -> (value: EventValue)
        ensures
            value == last_value(self@.state, ev_type, code),
    {
        let at = self.find(ev_type, code);
        if at < self.state.len() {
            self.state[at].value
        } else {
            0
        }
    }

    /// Turns what was read from the device into events. Each event is
    /// given the value that its code had before, and the device remembers
    /// the new value.
    pub fn poll(&mut self, raw: &Vec<RawEvent>) -> (events: Vec<Event>)
        ensures
            events@ == poll_spec(old(self)@.state, raw@, old(self)@.domain).out,
            final(self)@ == (InputDeviceView {
                state: poll_spec(old(self)@.state, raw@, old(self)@.domain).state,
                ..old(self)@
            }),
    {
        let ghost domain = self@.domain;
        let ghost f = |acc: PollStep, r: RawEvent|
            PollStep { state: noted(acc.state, r), out: acc.out.push(decoded(acc.state, r, domain)) };
        let ghost init = PollStep { state: old(self)@.state, out: Seq::empty() };
        let mut result: Vec<Event> = Vec::new();
        let mut i: usize = 0;
        assert(raw@.take(0) =~= Seq::<RawEvent>::empty());
        while i < raw.len()
            invariant
                i <= raw.len(),
                domain == old(self)@.domain,
                f == (|acc: PollStep, r: RawEvent|
                    PollStep { state: noted(acc.state, r), out: acc.out.push(decoded(acc.state, r, domain)) }),
                init == (PollStep { state: old(self)@.state, out: Seq::empty() }),
                self@ == (InputDeviceView { state: raw@.take(i as int).fold_left(init, f).state, ..old(self)@ }),
                result@ == raw@.take(i as int).fold_left(init, f).out,
            decreases raw.len() - i,
        {
            proof {
                lemma_fold_left_take_step(raw@, init, f, i as int);
            }
            let r = raw[i];
            let at = self.find(r.ev_type, r.code);
            let entry = CodeState { ev_type: r.ev_type, code: r.code, value: r.value };
            let previous_value = if at < self.state.len() {
                self.state[at].value
            } else {
                0
            };
            if at < self.state.len() {
                self.state.set(at, entry);
            } else {
                self.state.push(entry);
            }
            result.push(Event::new(r.ev_type, r.code, r.value, previous_value, self.domain, Namespace::Input));
            i += 1;
        }
        assert(raw@.take(raw@.len() as int) =~= raw@);
        result
    }

    /// Whether the device is to be grabbed now.
    pub fn grab_if_desired(&self) -> (wanted: bool)
        ensures
            wanted == self@.wants_grab(),
    {
        if self.grabbed {
            return false;
        }
        match self.grab_mode {
            GrabMode::Never => false,
            GrabMode::Force => true,
            GrabMode::Auto => {
                let mut i: usize = 0;
                while i < self.state.len()
                    invariant
                        i <= self.state.len(),
                        !self@.grabbed,
                        self@.grab_mode == GrabMode::Auto,
                        forall|k: int|
                            0 <= k < i ==> !((#[trigger] self.state@[k]).ev_type == EV_KEY
                                && self.state@[k].value > 0),
                    decreases self.state.len() - i,
                {
                    if self.state[i].ev_type == EV_KEY && self.state[i].value > 0 {
                        assert(self@.state[i as int].ev_type == EV_KEY && self@.state[i as int].value > 0);
                        return false;
                    }
                    i += 1;
                }
                true
            },
        }
    }

    /// Takes note of an attempt to grab the device: `status` is what the
    /// kernel answered, negative when it refused. A refusal leaves the
    /// device as it was, fit for use.
    pub fn grab(&mut self, status: i32) -> (result: Result<(), RuntimeError>)
        ensures
            status < 0 ==> (result matches Err(error) && error.kind_spec() == ErrorKind::GrabFailed
                && error.context_spec().len() == 0 && final(self)@ == old(self)@),
            status >= 0 ==> result is Ok && final(self)@ == (InputDeviceView { grabbed: true, ..old(self)@ }),
    {
        if status < 0 {
            Err(RuntimeError::new(ErrorKind::GrabFailed))
        } else {
            self.grabbed = true;
            Ok(())
        }
    }

    /// Takes note of an attempt to let go of the device.
    pub fn ungrab(&mut self, status: i32) -> (result: Result<(), RuntimeError>)
        ensures
            status < 0 ==> (result matches Err(error) && error.kind_spec() == ErrorKind::UngrabFailed
                && error.context_spec().len() == 0 && final(self)@ == old(self)@),
            status >= 0 ==> result is Ok && final(self)@ == (InputDeviceView { grabbed: false, ..old(self)@ }),
    {
        if status < 0 {
            Err(RuntimeError::new(ErrorKind::UngrabFailed))
        } else {
            self.grabbed = false;
            Ok(())
        }
    }

    /// Gives up the device and keeps what is needed to open it again.
    pub fn into_blueprint(self) -> (blueprint: InputDeviceBlueprint)
        ensures
            blueprint.pre_device.path@ == self@.path,
            blueprint.pre_device.domain == self@.domain,
            blueprint.pre_device.grab_mode == self@.grab_mode,
            blueprint.pre_device.persist_mode == self@.persist_mode,
            blueprint.capabilities.codes@ == self@.codes,
            blueprint.capabilities.rep_info == self@.rep_info,
    {
        InputDeviceBlueprint {
            capabilities: self.capabilities,
            pre_device: PreInputDevice {
                path: self.path,
                grab_mode: self.grab_mode,
                persist_mode: self.persist_mode,
                domain: self.domain,
            },
        }
    }
}

} // verus!
