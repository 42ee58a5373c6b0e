//! Whole runs of the scanner: what a sequence of events leads to, and what
//! holds of every run.

use vstd::prelude::*;
use crate::block::Block;
use crate::registry::{follows_on, lemma_height_advances_by_one, AddressBookView};
use crate::scanner::{
    consistent, lemma_finished_stays, lemma_start_consistent, lemma_step_advances_by_one,
    lemma_step_consistent, Action, Event, ScanState, ScannerView,
};

verus! {

impl ScannerView {
    /// The scanner after the events of a list, taken in order.
    pub open spec fn run(self, events: Seq<Event>) -> ScannerView
        decreases events.len(),
    {
        if events.len() == 0 {
            self
        } else {
            self.run(events.drop_last()).next(events.last()).0
        }
    }

    /// What the scanner asks for in answer to each event of a list.
    pub open spec fn replies(self, events: Seq<Event>) -> Seq<Action>
        decreases events.len(),
    {
        if events.len() == 0 {
            Seq::empty()
        } else {
            self.replies(events.drop_last()).push(
                self.run(events.drop_last()).next(events.last()).1,
            )
        }
    }
}

/// The events of a run in which the provider has every block asked for: a
/// resume and the block found, once for each block, and the resume after the
/// last pause.
pub open spec fn faithful_events(blocks: Seq<Block>) -> Seq<Event> {
    Seq::new(
        2 * blocks.len() + 1,
        |i: int|
            if i % 2 == 0 {
                Event::Resume
            } else {
                Event::BlockFound(blocks[i / 2])
            },
    )
}

/// What the scanner asks for in such a run that starts at `height`: each
/// height above it in turn, a pause after each, and at last that the registry
/// be stored.
pub open spec fn faithful_replies(height: u64, count: nat) -> Seq<Action> {
    Seq::new(
        2 * count + 1,
        |i: int|
            if i == 2 * count {
                Action::Persist
            } else if i % 2 == 0 {
                Action::Request((height + 1 + i / 2) as u64)
            } else {
                Action::Pause
            },
    )
}

/// One more event takes the run one step further.
pub proof fn lemma_run_push(scanner: ScannerView, events: Seq<Event>, event: Event)
    ensures
        scanner.run(events.push(event)) == scanner.run(events).next(event).0,
        scanner.replies(events.push(event)) == scanner.replies(events).push(
            scanner.run(events).next(event).1,
        ),
        scanner.replies(events).len() == events.len(),
    decreases events.len(),
{
    assert(events.push(event).drop_last() == events);
    assert(events.push(event).last() == event);
    if events.len() > 0 {
        lemma_run_push(scanner, events.drop_last(), events.last());
        assert(events.drop_last().push(events.last()) == events);
    }
}

/// Over a whole run the height never goes down, no address is lost and the
/// target stays what it was.
pub proof fn lemma_run_never_goes_back(scanner: ScannerView, events: Seq<Event>)
    ensures
        scanner.run(events).registry.height >= scanner.registry.height,
        scanner.registry.addresses.subset_of(scanner.run(events).registry.addresses),
        scanner.run(events).target == scanner.target,
    decreases events.len(),
{
    if events.len() > 0 {
        lemma_run_never_goes_back(scanner, events.drop_last());
        lemma_step_advances_by_one(scanner.run(events.drop_last()), events.last());
    }
}

/// A scan that starts at or below its target never goes beyond it, whatever
/// is reported to it, and when it is done the registry is exactly at the
/// target.
pub proof fn lemma_run_stops_at_target(registry: AddressBookView, target: u64, events: Seq<Event>)
    requires
        registry.height <= target,
    ensures
        consistent(ScannerView::start(registry, target).run(events)),
        ScannerView::start(registry, target).run(events).registry.height <= target,
        ScannerView::start(registry, target).run(events).state is Done ==> ScannerView::start(
            registry,
            target,
        ).run(events).registry.height == target,
    decreases events.len(),
{
    let start = ScannerView::start(registry, target);
    if events.len() == 0 {
        lemma_start_consistent(registry, target);
    } else {
        lemma_run_stops_at_target(registry, target, events.drop_last());
        lemma_run_never_goes_back(start, events.drop_last());
        lemma_step_consistent(start.run(events.drop_last()), events.last());
    }
}

/// A run that is over is not changed by anything reported to it. So a scan
/// of a range that was scanned before, whose registry is at the target
/// already, leaves the registry as it is.
pub proof fn lemma_finished_run_is_stable(scanner: ScannerView, events: Seq<Event>)
    requires
        scanner.finished(),
    ensures
        scanner.run(events) == scanner,
    decreases events.len(),
{
    if events.len() > 0 {
        lemma_finished_run_is_stable(scanner, events.drop_last());
        lemma_finished_stays(scanner, events.last());
    }
}

/// Where a faithful run stands after the first `k` blocks: the blocks are
/// merged, the pause after the last of them runs, and each height was asked
/// for in turn.
proof fn lemma_faithful_prefix(registry: AddressBookView, target: u64, blocks: Seq<Block>, k: int)
    requires
        follows_on(registry.height, blocks),
        registry.height + blocks.len() == target,
        0 <= k <= blocks.len(),
    ensures
        ScannerView::start(registry, target).run(faithful_events(blocks).take(2 * k))
            == (ScannerView {
            state: if k == 0 {
                ScannerView::start(registry, target).state
            } else {
                ScanState::Merged
            },
            registry: registry.merged_all(blocks.take(k)),
            target,
        }),
        ScannerView::start(registry, target).replies(faithful_events(blocks).take(2 * k))
            == faithful_replies(registry.height, blocks.len()).take(2 * k),
    decreases k,
{
    let start = ScannerView::start(registry, target);
    let events = faithful_events(blocks);
    let replies = faithful_replies(registry.height, blocks.len());
    if k == 0 {
        assert(events.take(0) =~= Seq::<Event>::empty());
        assert(blocks.take(0) =~= Seq::<Block>::empty());
        assert(start.replies(events.take(0)) =~= replies.take(0));
    } else {
        lemma_faithful_prefix(registry, target, blocks, k - 1);
        lemma_height_advances_by_one(registry, blocks, k - 1);
        let before = events.take(2 * k - 2);
        let asked = before.push(Event::Resume);
        assert(events[2 * k - 2] == Event::Resume);
        assert(events[2 * k - 1] == Event::BlockFound(blocks[k - 1])) by {
            assert((2 * k - 1) / 2 == k - 1);
        }
        assert(events.take(2 * k - 1) =~= asked);
        assert(events.take(2 * k) =~= asked.push(Event::BlockFound(blocks[k - 1])));
        lemma_run_push(start, before, Event::Resume);
        lemma_run_push(start, asked, Event::BlockFound(blocks[k - 1]));
        assert(blocks.take(k).drop_last() == blocks.take(k - 1));
        assert(blocks.take(k).last() == blocks[k - 1]);
        assert(replies[2 * k - 2] == Action::Request((registry.height + k) as u64)) by {
            assert((2 * k - 2) / 2 == k - 1);
        }
        assert(replies[2 * k - 1] == Action::Pause);
        assert(replies.take(2 * k) =~= replies.take(2 * k - 2).push(replies[2 * k - 2]).push(
            replies[2 * k - 1],
        ));
    }
}

/// A scan whose provider has every block asked for processes exactly the
/// heights above its start up to and including the target, each once and in
/// order, and ends done with the registry at the target.
pub proof fn lemma_faithful_run_reaches_target(
    registry: AddressBookView,
    target: u64,
    blocks: Seq<Block>,
)
    requires
        follows_on(registry.height, blocks),
        registry.height + blocks.len() == target,
    ensures
        ScannerView::start(registry, target).run(faithful_events(blocks)) == (ScannerView {
            state: ScanState::Done,
            registry: registry.merged_all(blocks),
            target,
        }),
        registry.merged_all(blocks).height == target,
        ScannerView::start(registry, target).replies(faithful_events(blocks)) == faithful_replies(
            registry.height,
            blocks.len(),
        ),
{
    let start = ScannerView::start(registry, target);
    let events = faithful_events(blocks);
    let replies = faithful_replies(registry.height, blocks.len());
    let n = blocks.len() as int;
    lemma_faithful_prefix(registry, target, blocks, n);
    lemma_height_advances_by_one(registry, blocks, n);
    assert(blocks.take(n) == blocks);
    assert(events =~= events.take(2 * n).push(Event::Resume));
    lemma_run_push(start, events.take(2 * n), Event::Resume);
    assert(replies =~= replies.take(2 * n).push(Action::Persist));
}

} // verus!
