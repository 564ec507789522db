//! The register of what the dispatch loop waits on. Each source gets a
//! number when it is added, and no number is given out twice.
//!
//! Waiting itself is done by the caller, who then says which sources are
//! ready.

use vstd::prelude::*;
use crate::error::{ErrorKind, InterruptError, RuntimeError};
use crate::input::{InputDevice, InputDeviceView};

verus! {

/// The number under which a source is registered.
pub type FileIndex = u64;

/// A source that the dispatch loop waits on.
pub enum Pollable {
    InputDevice(InputDevice),
    /// The descriptor on which signals arrive.
    SignalFd,
    /// The link to the helper that opens broken devices again.
    PersistSubsystem,
    /// The watch on the directories of input devices.
    Inotify,
}

pub enum PollableView {
    InputDevice(InputDeviceView),
    SignalFd,
    PersistSubsystem,
    Inotify,
}

impl View for Pollable {
    type V = PollableView;

    open spec fn view(&self) -> PollableView {
        match self {
            Pollable::InputDevice(device) => PollableView::InputDevice(device@),
            Pollable::SignalFd => PollableView::SignalFd,
            Pollable::PersistSubsystem => PollableView::PersistSubsystem,
            Pollable::Inotify => PollableView::Inotify,
        }
    }
}

pub struct Registered {
    pub index: FileIndex,
    pub file: Pollable,
}

pub struct RegisteredView {
    pub index: FileIndex,
    pub file: PollableView,
}

impl View for Registered {
    type V = RegisteredView;

    open spec fn view(&self) -> RegisteredView {
        RegisteredView { index: self.index, file: self.file@ }
    }
}

/// What the caller's wait came back with for one source.
#[derive(PartialEq, Eq, Structural, Clone, Copy, Debug)]
pub struct Readiness {
    pub index: FileIndex,
    /// The source cannot be read anymore.
    pub broken: bool,
}

#[derive(PartialEq, Eq, Structural, Clone, Copy, Debug)]
pub enum Message {
    /// The source has something to read.
    Ready(FileIndex),
    /// The source is broken for good.
    Broken(FileIndex),
}

pub struct Epoll {
    files: Vec<Registered>,
    counter: FileIndex,
}

pub struct EpollView {
    /// The sources, in the order in which they were added.
    pub files: Seq<RegisteredView>,
    /// The number that the next source gets.
    pub counter: FileIndex,
}

impl View for Epoll {
    type V = EpollView;

    closed spec fn view(&self) -> EpollView {
        EpollView { files: self.files@.map_values(|r: Registered| r@), counter: self.counter }
    }
}

/// Where the source with number `index` stands; the number of sources when
/// there is none.
pub open spec fn position(files: Seq<RegisteredView>, index: FileIndex, start: int) -> int
    decreases files.len() - start,
{
    if start < 0 || start >= files.len() {
        files.len() as int
    } else if files[start].index == index {
        start
    } else {
        position(files, index, start + 1)
    }
}

pub open spec fn message_for(ready: Readiness) -> Message {
    if ready.broken {
        Message::Broken(ready.index)
    } else {
        Message::Ready(ready.index)
    }
}

impl EpollView {
    /// Every number in use is below the next number, and the sources stand
    /// in the order of their numbers: so no number is in use twice, and
    /// none that was given out is given out again.
    pub open spec fn wf(self) -> bool {
        &&& forall|i: int| 0 <= i < self.files.len() ==> (#[trigger] self.files[i]).index < self.counter
        &&& forall|i: int, j: int|
            0 <= i < j < self.files.len() ==> (#[trigger] self.files[i]).index < (#[trigger] self.files[j]).index
    }

    pub open spec fn has(self, index: FileIndex) -> bool {
        position(self.files, index, 0) < self.files.len()
    }

    pub open spec fn get(self, index: FileIndex) -> Option<PollableView> {
        if self.has(index) {
            Some(self.files[position(self.files, index, 0)].file)
        } else {
            None
        }
    }

    pub open spec fn removed(self, index: FileIndex) -> EpollView {
        if self.has(index) {
            EpollView { files: self.files.remove(position(self.files, index, 0)), ..self }
        } else {
            self
        }
    }

    /// How many of the sources are input devices.
    pub open spec fn input_devices(self) -> nat {
        self.files.filter(|r: RegisteredView| r.file is InputDevice).len()
    }

    /// The watch on the device directories is among the sources.
    pub open spec fn has_inotify(self) -> bool {
        exists|i: int| 0 <= i < self.files.len() && (#[trigger] self.files[i]).file is Inotify
    }
}

pub proof fn lemma_position(files: Seq<RegisteredView>, index: FileIndex, start: int)
    requires
        0 <= start <= files.len(),
    ensures
        ({
            let at = position(files, index, start);
            &&& start <= at <= files.len()
            &&& at < files.len() ==> files[at].index == index
            &&& forall|k: int| start <= k < at ==> (#[trigger] files[k]).index != index
        }),
    decreases files.len() - start,
{
    if start < files.len() && files[start].index != index {
        lemma_position(files, index, start + 1);
    }
}

proof fn lemma_position_is(files: Seq<RegisteredView>, index: FileIndex, start: int, at: int)
    requires
        0 <= start <= at <= files.len(),
        at < files.len() ==> files[at].index == index,
        forall|k: int| start <= k < at ==> (#[trigger] files[k]).index != index,
    ensures
        position(files, index, start) == at,
    decreases at - start,
{
    if start < at {
        lemma_position_is(files, index, start + 1, at);
    }
}

/// A number that has just been given out was not in use, and taking a
/// source out frees no number for use.
pub proof fn lemma_numbers_are_not_reused(epoll: EpollView, index: FileIndex)
    requires
        epoll.wf(),
    ensures
        !epoll.has(epoll.counter),
        epoll.removed(index).wf(),
        epoll.removed(index).counter == epoll.counter,
        !epoll.removed(index).has(index),
{
    lemma_position(epoll.files, epoll.counter, 0);
    lemma_position(epoll.files, index, 0);
    let after = epoll.removed(index);
    lemma_position(after.files, index, 0);
    if epoll.has(index) {
        let at = position(epoll.files, index, 0);
        let found = position(after.files, index, 0);
        if found < after.files.len() {
            if found < at {
                assert(after.files[found] == epoll.files[found]);
            } else {
                assert(after.files[found] == epoll.files[found + 1]);
                assert(epoll.files[at].index < epoll.files[found + 1].index);
            }
        }
        assert forall|i: int, j: int| 0 <= i < j < after.files.len() implies (#[trigger] after.files[i]).index
            < (#[trigger] after.files[j]).index by {
            let a = if i < at { i } else { i + 1 };
            let b = if j < at { j } else { j + 1 };
            assert(after.files[i] == epoll.files[a]);
            assert(after.files[j] == epoll.files[b]);
        }
        assert forall|i: int| 0 <= i < after.files.len() implies (#[trigger] after.files[i]).index
            < after.counter by {
            let a = if i < at { i } else { i + 1 };
            assert(after.files[i] == epoll.files[a]);
        }
    }
}

impl Epoll {
    pub fn new() -> (epoll: Epoll)
        ensures
            epoll@.wf(),
            epoll@ == (EpollView { files: Seq::empty(), counter: 0 }),
    {
        let epoll = Epoll { files: Vec::new(), counter: 0 };
        assert(epoll@.files =~= Seq::<RegisteredView>::empty());
        epoll
    }

    /// Registers a source and hands back its number. Fails when the
    /// numbers have run out.
    pub fn add_file(&mut self, file: Pollable) -> (result: Result<FileIndex, RuntimeError>)
        requires
            old(self)@.wf(),
        ensures
            final(self)@.wf(),
            result is Ok == (old(self)@.counter < u64::MAX),
            result matches Ok(index) ==> index == old(self)@.counter && !old(self)@.has(index) && final(self)@
                == (EpollView {
                files: old(self)@.files.push(RegisteredView { index, file: file@ }),
                counter: (index + 1) as u64,
            }),
            result matches Err(error) ==> error.kind_spec() == ErrorKind::TooManySources
                && error.context_spec().len() == 0 && final(self)@ == old(self)@,
    {
        if self.counter == u64::MAX {
            return Err(RuntimeError::new(ErrorKind::TooManySources));
        }
        let index = self.counter;
        proof {
            lemma_numbers_are_not_reused(self@, index);
        }
        let ghost view = file@;
        self.files.push(Registered { index, file });
        self.counter = index + 1;
        assert(self@.files =~= old(self)@.files.push(RegisteredView { index, file: view }));
        Ok(index)
    }

    fn find(&self, index: FileIndex) -> (at: usize)
        ensures
            at as int == position(self@.files, index, 0),
            at <= self@.files.len(),
            self@.files.len() == self.files@.len(),
    {
        let mut at: usize = 0;
        while at < self.files.len() && self.files[at].index != index
            invariant
                at <= self.files.len(),
                forall|k: int| 0 <= k < at ==> (#[trigger] self@.files[k]).index != index,
            decreases self.files.len() - at,
        {
            at += 1;
        }
        proof {
            lemma_position_is(self@.files, index, 0, at as int);
        }
        at
    }

    /// Takes out the source with number `index`, if there is one.
    pub fn remove(&mut self, index: FileIndex) -> (file: Option<Pollable>)
        requires
            old(self)@.wf(),
        ensures
            final(self)@.wf(),
            final(self)@ == old(self)@.removed(index),
            match file {
                Some(f) => old(self)@.get(index) == Some(f@),
                None => old(self)@.get(index) is None,
            },
    {
        proof {
            lemma_numbers_are_not_reused(self@, index);
        }
        let at = self.find(index);
        if at < self.files.len() {
            let registered = self.files.remove(at);
            assert(self@.files =~= old(self)@.files.remove(at as int));
            Some(registered.file)
        } else {
            None
        }
    }

    /// The source with number `index`, if there is one.
    pub fn get(&self, index: FileIndex) -> (file: Option<&Pollable>)
        ensures
            match file {
                Some(f) => self@.get(index) == Some(f@),
                None => self@.get(index) is None,
            },
    {
        let at = self.find(index);
        if at < self.files.len() {
            Some(&self.files[at].file)
        } else {
            None
        }
    }

    /// The source with number `index`, to be changed in place.
    pub fn get_mut(&mut self, index: FileIndex) -> (file: Option<&mut Pollable>)
        ensures
            match file {
                Some(f) => old(self)@.has(index) && old(self)@.get(index) == Some(f@) && final(self)@.counter
                    == old(self)@.counter && final(self)@.files =~= old(self)@.files.update(
                    position(old(self)@.files, index, 0),
                    RegisteredView { index, file: final(f)@ },
                ),
                None => !old(self)@.has(index) && final(self)@ == old(self)@,
            },
    {
        let at = self.find(index);
        if at < self.files.len() {
            proof {
                lemma_position(self@.files, index, 0);
            }
            let r = &mut self.files[at];
            Some(&mut r.file)
        } else {
            None
        }
    }

    /// How many input devices are registered.
    pub fn count_input_devices(&self) -> (n: usize)
        ensures
            n == self@.input_devices(),
    {
        let ghost is_device = |r: RegisteredView| r.file is InputDevice;
        let mut n: usize = 0;
        let mut i: usize = 0;
        proof {
            crate::seq_util::lemma_filter_empty(is_device);
            assert(self@.files.take(0) =~= Seq::<RegisteredView>::empty());
        }
        while i < self.files.len()
            invariant
                i <= self.files.len(),
                self@.files.len() == self.files@.len(),
                is_device == (|r: RegisteredView| r.file is InputDevice),
                n == self@.files.take(i as int).filter(is_device).len(),
                n <= i,
            decreases self.files.len() - i,
        {
            proof {
                crate::seq_util::lemma_filter_take_step(self@.files, is_device, i as int);
            }
            match &self.files[i].file {
                Pollable::InputDevice(_) => {
                    n += 1;
                },
                _ => {},
            }
            i += 1;
        }
        assert(self@.files.take(self@.files.len() as int) =~= self@.files);
        n
    }

    /// Whether the watch on the device directories is registered.
    pub fn has_inotify(&self) -> (r: bool)
        ensures
            r == self@.has_inotify(),
    {
        let mut i: usize = 0;
        while i < self.files.len()
            invariant
                i <= self.files.len(),
                self@.files.len() == self.files@.len(),
                forall|k: int| 0 <= k < i ==> !((#[trigger] self@.files[k]).file is Inotify),
            decreases self.files.len() - i,
        {
            match &self.files[i].file {
                Pollable::Inotify => {
                    assert(self@.files[i as int].file is Inotify);
                    return true;
                },
                _ => {},
            }
            i += 1;
        }
        false
    }

    /// The number that the next source will get.
    pub fn next_index(&self) -> (index: FileIndex)
        ensures
            index == self@.counter,
    {
        self.counter
    }

    pub fn has_files(&self) -> (r: bool)
        ensures
            r == (self@.files.len() > 0),
    {
        self.files.len() > 0
    }

    /// Says what the caller's wait came to: one message for each source
    /// that it found ready or broken, in the order in which it found them;
    /// or that the wait was interrupted by a signal to stop.
    pub fn poll(&self, ready: &Vec<Readiness>, interrupted: bool) -> (result: Result<Vec<Message>, InterruptError>)
        ensures
            interrupted ==> result is Err,
            !interrupted ==> (result matches Ok(messages) && messages@ == ready@.map_values(
                |r: Readiness| message_for(r),
            )),
    {
        if interrupted {
            return Err(InterruptError {  });
        }
        let mut messages: Vec<Message> = Vec::new();
        let mut i: usize = 0;
        while i < ready.len()
            invariant
                i <= ready.len(),
                messages@ == ready@.take(i as int).map_values(|r: Readiness| message_for(r)),
            decreases ready.len() - i,
        {
            let r = ready[i];
            messages.push(if r.broken { Message::Broken(r.index) } else { Message::Ready(r.index) });
            assert(messages@ =~= ready@.take(i + 1).map_values(|r: Readiness| message_for(r)));
            i += 1;
        }
        assert(ready@.take(ready@.len() as int) =~= ready@);
        Ok(messages)
    }
}

} // verus!
