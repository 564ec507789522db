//! Errors, each with the chain of what was being done when it occurred.

use vstd::prelude::*;
use crate::event::Domain;

verus! {

/// What went wrong while the stream or its devices were set up or run.
#[derive(PartialEq, Eq, Structural, Clone, Copy, Debug)]
pub enum ErrorKind {
    /// Two output devices were asked for on one domain.
    DuplicateOutputDomain { domain: Domain },
    /// No more sources can be registered.
    TooManySources,
    /// Reading from an input device gave a status that is not known.
    UnknownReadStatus { status: i32 },
    /// The device could not be grabbed.
    GrabFailed,
    /// The device could not be released.
    UngrabFailed,
    /// The device could not be opened.
    OpenFailed,
    /// The helper that opens devices again could not be reached.
    PersistenceFailed,
}

/// What was being done when an error occurred.
#[derive(PartialEq, Eq, Debug)]
pub enum Frame {
    /// The input device at this path was being opened.
    OpeningDevice { path: String },
    /// The input device at this path was being polled.
    PollingDevice { path: String },
    /// A device that had been opened again was being registered.
    AddingOpenedDevice,
    /// The helper that opens devices again was being polled.
    PollingPersistence,
}

pub enum FrameView {
    OpeningDevice { path: Seq<char> },
    PollingDevice { path: Seq<char> },
    AddingOpenedDevice,
    PollingPersistence,
}

impl View for Frame {
    type V = FrameView;

    open spec fn view(&self) -> FrameView {
        match self {
            Frame::OpeningDevice { path } => FrameView::OpeningDevice { path: path@ },
            Frame::PollingDevice { path } => FrameView::PollingDevice { path: path@ },
            Frame::AddingOpenedDevice => FrameView::AddingOpenedDevice,
            Frame::PollingPersistence => FrameView::PollingPersistence,
        }
    }
}

/// An error with its context: the frames say, innermost first, what was
/// being done. Each layer that hands an error on adds its frame.
#[derive(PartialEq, Eq, Debug)]
pub struct RuntimeError {
    kind: ErrorKind,
    context: Vec<Frame>,
}

pub struct ErrorView {
    pub kind: ErrorKind,
    /// The frames of context, innermost first.
    pub context: Seq<FrameView>,
}

impl View for RuntimeError {
    type V = ErrorView;

    closed spec fn view(&self) -> ErrorView {
        ErrorView { kind: self.kind, context: self.context@.map_values(|f: Frame| f@) }
    }
}

impl ErrorView {
    /// The same error with one more frame of context around it.
    pub open spec fn with_context(self, frame: FrameView) -> ErrorView {
        ErrorView { context: self.context.push(frame), ..self }
    }
}

/// The dispatch loop was told to stop.
#[derive(PartialEq, Eq, Structural, Clone, Copy, Debug)]
pub struct InterruptError {}

impl RuntimeError {
    pub open spec fn kind_spec(&self) -> ErrorKind {
        self@.kind
    }

    pub open spec fn context_spec(&self) -> Seq<FrameView> {
        self@.context
    }

    pub fn new(kind: ErrorKind) -> (error: RuntimeError)
        ensures
            error@ == (ErrorView { kind, context: Seq::empty() }),
    {
        let error = RuntimeError { kind, context: Vec::new() };
        assert(error@.context =~= Seq::<FrameView>::empty());
        error
    }

    #[verifier::when_used_as_spec(kind_spec)]
    pub fn kind(&self) -> (kind: ErrorKind)
        ensures
            kind == self.kind_spec(),
    {
        self.kind
    }

    /// The frames of context, innermost first.
    pub fn context(&self) -> (context: &Vec<Frame>)
        ensures
            context@.map_values(|f: Frame| f@) == self.context_spec(),
    {
        &self.context
    }

    /// The same error with one more frame of context around it.
    pub fn with_context(self, frame: Frame) -> (error: RuntimeError)
        ensures
            error@ == self@.with_context(frame@),
    {
        let mut error = self;
        let ghost view = frame@;
        error.context.push(frame);
        assert(error@.context =~= self@.context.push(view));
        error
    }
}

} // verus!
