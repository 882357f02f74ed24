//! The walk over a directory tree, as a machine that the caller drives.
//!
//! A [`Walker`] never reads a directory itself. It says what comes next: a
//! line to write, a directory to read, or the end. The caller writes the
//! line, or reads the directory and hands the listing back.

use vstd::prelude::*;
use crate::entry::{descends, entry_views, Config, Entry, EntryView, FileType};
use crate::order::{arrange, slot_views, visible, Slot, SlotView};
use crate::render::{child_prefix, line_of, render, segment_text, RenderLine, RenderLineView};

verus! {

/// Why a directory could not be read.
#[derive(Clone, Copy, Debug, PartialEq, Eq, Structural)]
pub enum ReadFailure {
    PermissionDenied,
    Other,
}

/// What reading a directory gave: its entries in the order read, or the
/// reason why there are none.
#[derive(Debug, PartialEq, Eq)]
pub enum Listing {
    Entries(Vec<Entry>),
    Failed(ReadFailure),
}

/// A listing as a plain value.
pub ghost enum ListingView {
    Entries(Seq<EntryView>),
    Failed(ReadFailure),
}

impl View for Listing {
    type V = ListingView;

    open spec fn view(&self) -> ListingView {
        match self {
            Listing::Entries(entries) => ListingView::Entries(entry_views(entries@)),
            Listing::Failed(reason) => ListingView::Failed(*reason),
        }
    }
}

/// The root of a walk could not be read.
#[derive(Clone, Copy, Debug, PartialEq, Eq, Structural)]
pub struct RootReadError {
    pub reason: ReadFailure,
}

/// What a walk gives out: the line of an entry, or the notice that a
/// directory below the root could not be read.
#[derive(Debug, PartialEq, Eq)]
pub enum RenderEvent {
    Line(RenderLine),
    ReadFailed { path: String, reason: ReadFailure },
}

/// An event as a plain value.
pub ghost enum EventView {
    Line(RenderLineView),
    ReadFailed { path: Seq<char>, reason: ReadFailure },
}

impl View for RenderEvent {
    type V = EventView;

    open spec fn view(&self) -> EventView {
        match self {
            RenderEvent::Line(line) => EventView::Line(line@),
            RenderEvent::ReadFailed { path, reason } => EventView::ReadFailed {
                path: path@,
                reason: *reason,
            },
        }
    }
}

/// What the caller of a walker does next.
#[derive(Debug, PartialEq, Eq)]
pub enum Step {
    /// Write this event.
    Emit(RenderEvent),
    /// Read the directory at this path and supply its listing.
    Read(String),
    /// The walk is over.
    Done,
}

/// A step as a plain value.
pub ghost enum StepView {
    Emit(EventView),
    Read(Seq<char>),
    Done,
}

impl View for Step {
    type V = StepView;

    open spec fn view(&self) -> StepView {
        match self {
            Step::Emit(event) => StepView::Emit(event@),
            Step::Read(path) => StepView::Read(path@),
            Step::Done => StepView::Done,
        }
    }
}

/// Where a walker stands between two steps.
enum Phase {
    Ready,
    Awaiting { path: String, prefix: String },
    Failed { path: String, reason: ReadFailure },
}

/// Where a walker stands between two steps, as a plain value.
pub ghost enum PhaseView {
    /// Ready to go on with the open directories.
    Ready,
    /// Waiting for the listing of the directory at `path`, whose entries
    /// will be drawn under `prefix`.
    Awaiting { path: Seq<char>, prefix: Seq<char> },
    /// The directory at `path` could not be read, and the notice is still
    /// to be given out.
    Failed { path: Seq<char>, reason: ReadFailure },
}

impl View for Phase {
    type V = PhaseView;

    closed spec fn view(&self) -> PhaseView {
        match self {
            Phase::Ready => PhaseView::Ready,
            Phase::Awaiting { path, prefix } => PhaseView::Awaiting {
                path: path@,
                prefix: prefix@,
            },
            Phase::Failed { path, reason } => PhaseView::Failed { path: path@, reason: *reason },
        }
    }
}

/// One open directory: its slots, how many of them have had their line,
/// and the prefix of their lines.
struct Frame {
    slots: Vec<Slot>,
    next: usize,
    prefix: String,
}

/// An open directory as a plain value.
pub ghost struct FrameView {
    pub slots: Seq<SlotView>,
    pub next: int,
    pub prefix: Seq<char>,
}

impl View for Frame {
    type V = FrameView;

    closed spec fn view(&self) -> FrameView {
        FrameView { slots: slot_views(self.slots@), next: self.next as int, prefix: self.prefix@ }
    }
}

/// A walk in progress: the open directories from the root down, and the
/// phase.
pub struct Walker {
    config: Config,
    frames: Vec<Frame>,
    phase: Phase,
}

/// A walker as a plain value.
pub ghost struct WalkerView {
    pub config: Config,
    pub frames: Seq<FrameView>,
    pub phase: PhaseView,
}

impl View for Walker {
    type V = WalkerView;

    closed spec fn view(&self) -> WalkerView {
        WalkerView {
            config: self.config,
            frames: self.frames@.map_values(|f: Frame| f@),
            phase: self.phase@,
        }
    }
}

impl FrameView {
    /// Whether every slot has had its line.
    pub open spec fn exhausted(self) -> bool {
        self.next >= self.slots.len()
    }

    /// The slot whose line came last.
    pub open spec fn current(self) -> SlotView {
        self.slots[self.next - 1]
    }

    /// The prefix of the lines below the slot whose line came last.
    pub open spec fn prefix_below(self) -> Seq<char> {
        self.prefix + segment_text(self.next == self.slots.len())
    }
}

/// The open directories without the exhausted ones on top.
pub open spec fn settle(frames: Seq<FrameView>) -> Seq<FrameView>
    decreases frames.len(),
{
    if frames.len() > 0 && frames.last().exhausted() {
        settle(frames.drop_last())
    } else {
        frames
    }
}

/// The walker that starts on the listing of the root.
pub open spec fn start_spec(config: Config, root: Seq<EntryView>) -> WalkerView {
    WalkerView {
        config,
        frames: seq![FrameView { slots: visible(root, config), next: 0, prefix: Seq::empty() }],
        phase: PhaseView::Ready,
    }
}

/// One step of a walker: the walker after it, and what the caller does.
///
/// A waiting walker asks for its directory again. A walker with a failure
/// gives out the notice. A ready walker closes the directories that have had
/// all their lines, and then gives out the next line of the innermost open
/// directory, or is done when none is open. Behind the line of a directory
/// into which the walk descends it waits for the listing.
pub open spec fn advance_spec(w: WalkerView) -> (WalkerView, StepView) {
    match w.phase {
        PhaseView::Awaiting { path, prefix } => (w, StepView::Read(path)),
        PhaseView::Failed { path, reason } => (
            WalkerView { phase: PhaseView::Ready, ..w },
            StepView::Emit(EventView::ReadFailed { path, reason }),
        ),
        PhaseView::Ready => {
            let frames = settle(w.frames);
            if frames.len() == 0 {
                (WalkerView { frames, ..w }, StepView::Done)
            } else {
                let top = frames.last();
                let slot = top.slots[top.next];
                let is_last = top.next == top.slots.len() - 1;
                let depth = frames.len();
                let line = line_of(slot.entry, top.prefix, is_last, depth);
                let phase = if descends(slot.entry.kind, depth, w.config) {
                    PhaseView::Awaiting {
                        path: slot.entry.path,
                        prefix: top.prefix + segment_text(is_last),
                    }
                } else {
                    PhaseView::Ready
                };
                (
                    WalkerView {
                        frames: frames.update(
                            frames.len() - 1,
                            FrameView { next: top.next + 1, ..top },
                        ),
                        phase,
                        ..w
                    },
                    StepView::Emit(EventView::Line(line)),
                )
            }
        },
    }
}

/// A waiting walker after it was given `listing`: it opens the directory,
/// or keeps the failure for its next step. Any other walker stays as it is.
pub open spec fn supply_spec(w: WalkerView, listing: ListingView) -> WalkerView {
    match w.phase {
        PhaseView::Awaiting { path, prefix } => match listing {
            ListingView::Failed(reason) => WalkerView {
                phase: PhaseView::Failed { path, reason },
                ..w
            },
            ListingView::Entries(entries) => WalkerView {
                frames: w.frames.push(
                    FrameView { slots: visible(entries, w.config), next: 0, prefix },
                ),
                phase: PhaseView::Ready,
                ..w
            },
        },
        _ => w,
    }
}

impl Walker {
    /// Starts a walk on the listing of its root. A root that could not be
    /// read is an error: there is nothing to walk.
    pub fn start(config: Config, root: Listing) -> (r: Result<Walker, RootReadError>)
        ensures
            match root@ {
                ListingView::Failed(reason) => r == Err::<Walker, RootReadError>(
                    RootReadError { reason },
                ),
                ListingView::Entries(entries) => r is Ok && r->Ok_0@ == start_spec(config, entries),
            },
    {
        match root {
            Listing::Failed(reason) => Err(RootReadError { reason }),
            Listing::Entries(entries) => {
                let slots = arrange(entries, &config);
                let mut frames: Vec<Frame> = Vec::new();
                frames.push(Frame { slots, next: 0, prefix: String::new() });
                let walker = Walker { config, frames, phase: Phase::Ready };
                assert(walker@.frames =~= start_spec(config, entry_views(entries@)).frames);
                Ok(walker)
            },
        }
    }

    /// The options of this walk.
    pub fn config(&self) -> (config: Config)
        ensures
            config == self@.config,
    {
        self.config
    }

    /// Whether the walker waits for a listing.
    pub fn is_awaiting(&self) -> (r: bool)
        ensures
            r == (self@.phase is Awaiting),
    {
        matches!(self.phase, Phase::Awaiting { .. })
    }

    /// Closes the directories that have had all their lines.
    fn close_exhausted(&mut self)
        ensures
            final(self)@ == (WalkerView { frames: settle(old(self)@.frames), ..old(self)@ }),
            final(self).frames@.len() > 0 ==> final(self).frames@.last().next
                < final(self).frames@.last().slots@.len(),
    {
        loop
            invariant
                self@.phase == old(self)@.phase,
                self@.config == old(self)@.config,
                settle(self@.frames) == settle(old(self)@.frames),
            ensures
                self@.phase == old(self)@.phase,
                self@.config == old(self)@.config,
                self@.frames == settle(old(self)@.frames),
                self.frames@.len() > 0 ==> self.frames@.last().next
                    < self.frames@.last().slots@.len(),
            decreases self.frames.len(),
        {
            let open = self.frames.len();
            if open == 0 {
                break ;
            }
            if self.frames[open - 1].next < self.frames[open - 1].slots.len() {
                break ;
            }
            let ghost before = self@.frames;
            self.frames.pop();
            assert(self@.frames =~= before.drop_last());
        }
    }

    /// Takes one step and says what the caller does next.
    pub fn advance(&mut self) -> (step: Step)
        ensures
            final(self)@ == advance_spec(old(self)@).0,
            step@ == advance_spec(old(self)@).1,
    {
        let mut phase = Phase::Ready;
        core::mem::swap(&mut self.phase, &mut phase);
        match phase {
            Phase::Awaiting { path, prefix } => {
                let asked = path.clone();
                self.phase = Phase::Awaiting { path, prefix };
                Step::Read(asked)
            },
            Phase::Failed { path, reason } => Step::Emit(RenderEvent::ReadFailed { path, reason }),
            Phase::Ready => {
                self.close_exhausted();
                let depth = self.frames.len();
                let ghost frames = self@.frames;
                match self.frames.pop() {
                    None => Step::Done,
                    Some(top) => {
                        let mut top = top;
                        let position = top.next;
                        let count = top.slots.len();
                        let is_last = position + 1 == count;
                        let slot = &top.slots[position];
                        let line = render(&slot.entry, top.prefix.as_str(), is_last, depth);
                        if matches!(slot.entry.kind, FileType::Directory) && (self.config.max_depth
                            == 0 || depth < self.config.max_depth) {
                            self.phase = Phase::Awaiting {
                                path: slot.entry.path.clone(),
                                prefix: child_prefix(top.prefix.as_str(), is_last),
                            };
                        }
                        top.next = position + 1;
                        self.frames.push(top);
                        assert(self@.frames =~= frames.update(
                            frames.len() - 1,
                            FrameView { next: frames.last().next + 1, ..frames.last() },
                        ));
                        Step::Emit(RenderEvent::Line(line))
                    },
                }
            },
        }
    }

    /// Hands the walker the listing it waits for. A walker that does not
    /// wait drops the listing.
    pub fn supply(&mut self, listing: Listing)
        ensures
            final(self)@ == supply_spec(old(self)@, listing@),
    {
        let mut phase = Phase::Ready;
        core::mem::swap(&mut self.phase, &mut phase);
        match phase {
            Phase::Awaiting { path, prefix } => match listing {
                Listing::Failed(reason) => {
                    self.phase = Phase::Failed { path, reason };
                },
                Listing::Entries(entries) => {
                    let slots = arrange(entries, &self.config);
                    let ghost frames = self@.frames;
                    self.frames.push(Frame { slots, next: 0, prefix });
                    assert(self@.frames =~= frames.push(
                        FrameView {
                            slots: visible(entry_views(entries@), self.config),
                            next: 0,
                            prefix: prefix@,
                        },
                    ));
                },
            },
            other => {
                self.phase = other;
            },
        }
    }
}

} // verus!
