//! The scan as a state machine. The scanner owns the registry and decides,
//! from what happened last, what is to be done next. Whoever drives it talks
//! to the block provider, waits out the pause and stores the snapshot, and
//! reports back with an [`Event`].

use vstd::prelude::*;
use crate::block::Block;
use crate::error::ScanError;
use crate::listing::appended;
use crate::registry::{AddressBook, AddressBookView};

verus! {

/// Where a scan stands.
#[derive(Clone, Copy, Debug, PartialEq, Eq, Structural)]
pub enum ScanState {
    /// Below the target, no request made yet.
    Idle,
    /// A request for the next height is in flight.
    Fetching,
    /// The block asked for was merged; the pause before the next step runs.
    Merged,
    /// The provider had no block at the height asked for; the height is
    /// unchanged and the same height is asked for again after the pause.
    SoftMiss,
    /// The provider failed. The run is over.
    Failed,
    /// The target is reached. The run is over and the registry is to be
    /// stored.
    Done,
}

/// What the driver reports to the scanner.
#[derive(Debug)]
pub enum Event {
    /// The run starts, or the pause is over.
    Resume,
    /// The provider returned this block.
    BlockFound(Block),
    /// The provider has no block at the height asked for.
    BlockAbsent,
    /// The request failed, or the answer could not be understood.
    ProviderFailed,
}

/// What the scanner asks the driver to do next.
#[derive(Clone, Copy, Debug, PartialEq, Eq, Structural)]
pub enum Action {
    /// Ask the provider for the block at this height, then report
    /// [`Event::BlockFound`], [`Event::BlockAbsent`] or
    /// [`Event::ProviderFailed`].
    Request(u64),
    /// Wait for the pacing delay, then report [`Event::Resume`].
    Pause,
    /// Store the snapshot of the registry. The run has reached its target.
    Persist,
    /// Report the failure and the height reached. The run has failed.
    Abort,
}

/// What a scanner stands for: its state, its registry and the target height.
/// Heights up to and including the target are scanned.
#[verifier::ext_equal]
pub struct ScannerView {
    pub state: ScanState,
    pub registry: AddressBookView,
    pub target: u64,
}

impl ScannerView {
    /// The scanner at the start of a run.
    pub open spec fn start(registry: AddressBookView, target: u64) -> ScannerView {
        ScannerView {
            state: if registry.height < target {
                ScanState::Idle
            } else {
                ScanState::Done
            },
            registry,
            target,
        }
    }

    /// This scanner in another state.
    pub open spec fn at(self, state: ScanState) -> ScannerView {
        ScannerView { state, registry: self.registry, target: self.target }
    }

    /// Whether the run is over.
    pub open spec fn finished(self) -> bool {
        self.state is Done || self.state is Failed
    }

    /// Whether `event` brings the block that is merged next: a request is in
    /// flight and the block is the one that follows the current height.
    pub open spec fn merges(self, event: Event) -> bool {
        self.state is Fetching && match event {
            Event::BlockFound(block) => block.height == self.registry.height + 1,
            _ => false,
        }
    }

    /// The scanner after `event`, and what it asks for.
    ///
    /// A finished run stays as it is. On [`Event::Resume`] the next height is
    /// asked for while the registry is below the target, and the run is done
    /// otherwise. An answer of the provider counts only while a request is in
    /// flight: a block of the height that follows is merged, an absent block
    /// leaves the registry alone, and both are followed by a pause; a block of
    /// any other height is a failure. A failure of the provider ends the run
    /// in every state.
    pub open spec fn next(self, event: Event) -> (ScannerView, Action) {
        if self.state is Failed {
            (self, Action::Abort)
        } else if self.state is Done {
            (self, Action::Persist)
        } else {
            match event {
                Event::Resume => if self.registry.height < self.target {
                    (
                        self.at(ScanState::Fetching),
                        Action::Request((self.registry.height + 1) as u64),
                    )
                } else {
                    (self.at(ScanState::Done), Action::Persist)
                },
                Event::BlockFound(block) => if !(self.state is Fetching) {
                    (self, Action::Pause)
                } else if block.height == self.registry.height + 1 {
                    (
                        ScannerView {
                            state: ScanState::Merged,
                            registry: self.registry.merged(block),
                            target: self.target,
                        },
                        Action::Pause,
                    )
                } else {
                    (self.at(ScanState::Failed), Action::Abort)
                },
                Event::BlockAbsent => if self.state is Fetching {
                    (self.at(ScanState::SoftMiss), Action::Pause)
                } else {
                    (self, Action::Pause)
                },
                Event::ProviderFailed => (self.at(ScanState::Failed), Action::Abort),
            }
        }
    }
}

/// What holds of a scanner however it got where it is: a scan that waits for a
/// request, for an answer or for the retry of a miss is below its target, and a
/// scan that is done is not.
pub open spec fn consistent(scanner: ScannerView) -> bool {
    &&& scanner.state is Done ==> scanner.registry.height >= scanner.target
    &&& scanner.state is Idle || scanner.state is Fetching || scanner.state is SoftMiss
        ==> scanner.registry.height < scanner.target
}

/// A scanner is consistent at its start.
pub proof fn lemma_start_consistent(registry: AddressBookView, target: u64)
    ensures
        consistent(ScannerView::start(registry, target)),
{
}

/// A consistent scanner stays so with every event, and a registry that is not
/// beyond the target is never taken beyond it.
pub proof fn lemma_step_consistent(scanner: ScannerView, event: Event)
    requires
        consistent(scanner),
    ensures
        consistent(scanner.next(event).0),
        scanner.registry.height <= scanner.target ==> scanner.next(event).0.registry.height
            <= scanner.target,
{
}

/// The height never goes down and no address is ever lost. The height goes up
/// in one case only, and then by exactly one: a request is in flight and the
/// block that follows the current height arrives.
pub proof fn lemma_step_advances_by_one(scanner: ScannerView, event: Event)
    ensures
        scanner.next(event).0.target == scanner.target,
        scanner.registry.addresses.subset_of(scanner.next(event).0.registry.addresses),
        scanner.next(event).0.registry.height == scanner.registry.height + 1
            || scanner.next(event).0.registry == scanner.registry,
        scanner.next(event).0.registry.height == scanner.registry.height + 1
            <==> scanner.merges(event),
        scanner.merges(event) ==> scanner.next(event).0.state is Merged,
{
    let after = scanner.next(event).0;
    if after.registry.height != scanner.registry.height + 1 {
        assert(after.registry =~= scanner.registry);
    }
}

/// A block that the provider does not have leaves the registry as it is, in
/// every state. While a request is in flight it leads to a pause, after which
/// the same height is asked for again.
pub proof fn lemma_soft_miss_keeps_height(scanner: ScannerView)
    ensures
        scanner.next(Event::BlockAbsent).0.registry == scanner.registry,
        scanner.state is Fetching ==> scanner.next(Event::BlockAbsent) == (
            scanner.at(ScanState::SoftMiss),
            Action::Pause,
        ),
        scanner.state is Fetching && scanner.registry.height < scanner.target ==> scanner.next(
            Event::BlockAbsent,
        ).0.next(Event::Resume) == (
            scanner.at(ScanState::Fetching),
            Action::Request((scanner.registry.height + 1) as u64),
        ),
{
}

/// A run that is over stays as it is, whatever is reported to it.
pub proof fn lemma_finished_stays(scanner: ScannerView, event: Event)
    requires
        scanner.finished(),
    ensures
        scanner.next(event).0 == scanner,
        scanner.next(event).1 == if scanner.state is Done {
            Action::Persist
        } else {
            Action::Abort
        },
{
}

/// A scan of the chain from the height of a registry up to a target height.
#[derive(Debug)]
pub struct Scanner {
    registry: AddressBook,
    target: u64,
    state: ScanState,
}

impl View for Scanner {
    type V = ScannerView;

    closed spec fn view(&self) -> ScannerView {
        ScannerView { state: self.state, registry: self.registry@, target: self.target }
    }
}

impl Scanner {
    /// The registry of the scanner.
    pub closed spec fn book(&self) -> AddressBook {
        self.registry
    }

    /// The registry in the view of a scanner is the view of its registry.
    pub proof fn lemma_book(self)
        ensures
            self.book()@ == self@.registry,
    {
    }

    /// A scanner that takes `registry` up to `target_height`. A registry that
    /// is at the target already, or beyond it, gives a scanner that is done.
    pub fn new(registry: AddressBook, target_height: u64) -> (scanner: Scanner)
        ensures
            scanner@ == ScannerView::start(registry@, target_height),
            scanner.book() == registry,
            consistent(scanner@),
    {
        let state = if registry.height() < target_height {
            ScanState::Idle
        } else {
            ScanState::Done
        };
        Scanner { registry, target: target_height, state }
    }

    /// Takes in what happened and says what is to be done next. The registry
    /// changes only when a block is merged; its addresses are then put at the
    /// end of the listing in the order of the block.
    pub fn step(&mut self, event: Event) -> (action: Action)
        ensures
            final(self)@ == old(self)@.next(event).0,
            action == old(self)@.next(event).1,
            final(self).book().listing() == if old(self)@.merges(event) {
                appended(old(self).book().listing(), event->BlockFound_0.participant_list())
            } else {
                old(self).book().listing()
            },
            consistent(old(self)@) ==> consistent(final(self)@),
    {
        proof {
            if consistent(self@) {
                lemma_step_consistent(self@, event);
            }
        }
        match self.state {
            ScanState::Failed => Action::Abort,
            ScanState::Done => Action::Persist,
            ScanState::Idle | ScanState::Fetching | ScanState::Merged | ScanState::SoftMiss => {
                let height = self.registry.height();
                match event {
                    Event::Resume => {
                        if height < self.target {
                            self.state = ScanState::Fetching;
                            Action::Request(height + 1)
                        } else {
                            self.state = ScanState::Done;
                            Action::Persist
                        }
                    },
                    Event::BlockFound(block) => {
                        match self.state {
                            ScanState::Fetching => {
                                if height < u64::MAX && block.height == height + 1 {
                                    self.registry.merge_block(&block);
                                    self.state = ScanState::Merged;
                                    Action::Pause
                                } else {
                                    self.state = ScanState::Failed;
                                    Action::Abort
                                }
                            },
                            _ => Action::Pause,
                        }
                    },
                    Event::BlockAbsent => {
                        match self.state {
                            ScanState::Fetching => {
                                self.state = ScanState::SoftMiss;
                                Action::Pause
                            },
                            _ => Action::Pause,
                        }
                    },
                    Event::ProviderFailed => {
                        self.state = ScanState::Failed;
                        Action::Abort
                    },
                }
            },
        }
    }

    /// Where the scan stands.
    pub fn state(&self) -> (state: ScanState)
        ensures
            state == self@.state,
    {
        self.state
    }

    /// The height up to which the scan runs.
    pub fn target(&self) -> (target: u64)
        ensures
            target == self@.target,
    {
        self.target
    }

    /// The registry as the scan has left it so far.
    pub fn registry(&self) -> (registry: &AddressBook)
        ensures
            *registry == self.book(),
            registry@ == self@.registry,
    {
        &self.registry
    }

    /// Ends the scan and hands out the registry.
    pub fn into_registry(self) -> (registry: AddressBook)
        ensures
            registry == self.book(),
            registry@ == self@.registry,
    {
        self.registry
    }

    /// How the run ended: `None` while it is still going, the height reached
    /// once it is done, and the error once it has failed. After a failure the
    /// height reached is that of [`Scanner::registry`].
    pub fn outcome(&self) -> (outcome: Option<Result<u64, ScanError>>)
        ensures
            outcome == match self@.state {
                ScanState::Done => Some(Ok::<u64, ScanError>(self@.registry.height)),
                ScanState::Failed => Some(Err::<u64, ScanError>(ScanError::ProviderUnavailable)),
                _ => None::<Result<u64, ScanError>>,
            },
    {
        match self.state {
            ScanState::Done => Some(Ok(self.registry.height())),
            ScanState::Failed => Some(Err(ScanError::ProviderUnavailable)),
            _ => None,
        }
    }
}

} // verus!
