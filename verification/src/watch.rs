//! Watching the configuration file for changes.

use vstd::prelude::*;

verus! {

// ---------------------------------------------------------------------------
// Event records
// ---------------------------------------------------------------------------
/// The length of the fixed part of an event record: a descriptor, a mask, a cookie
/// and the length of the name that follows, of four bytes each.
pub const EVENT_HEADER: usize = 16;

/// The bits by which a mask tells that the file was written and closed, deleted, or
/// moved.
#[derive(Clone, Copy, Debug, PartialEq, Eq)]
pub struct WatchMasks {
    pub close_write: u32,
    pub delete_self: u32,
    pub move_self: u32,
}

/// The order in which a machine puts the bytes of a number.
#[derive(Clone, Copy, Debug, PartialEq, Eq, Structural)]
pub enum ByteOrder {
    /// The lowest byte comes first.
    LittleEndian,
    /// The highest byte comes first.
    BigEndian,
}

/// The number in the four bytes from position `i` on.
pub open spec fn word_at(buf: Seq<u8>, i: int, order: ByteOrder) -> u32 {
    match order {
        ByteOrder::LittleEndian => (buf[i] + 0x100 * buf[i + 1] + 0x1_0000 * buf[i + 2]
            + 0x100_0000 * buf[i + 3]) as u32,
        ByteOrder::BigEndian => (buf[i + 3] + 0x100 * buf[i + 2] + 0x1_0000 * buf[i + 1]
            + 0x100_0000 * buf[i]) as u32,
    }
}

/// The masks of the event records from position `i` on. A record that is cut off is
/// left out.
pub open spec fn event_masks(buf: Seq<u8>, i: int, order: ByteOrder) -> Seq<u32>
    decreases
            if i <= buf.len() {
                buf.len() - i + 1
            } else {
                0
            },
{
    if i + EVENT_HEADER > buf.len() {
        Seq::empty()
    } else {
        seq![word_at(buf, i + 4, order)] + event_masks(
            buf,
            i + EVENT_HEADER + word_at(buf, i + 12, order),
            order,
        )
    }
}

/// Whether an event asks for the file to be read again.
pub open spec fn asks_reload(mask: u32, m: WatchMasks) -> bool {
    mask & (m.close_write | m.delete_self | m.move_self) != 0
}

/// Whether an event asks for the file to be watched anew.
pub open spec fn asks_rewatch(mask: u32, m: WatchMasks) -> bool {
    mask & (m.delete_self | m.move_self) != 0
}

/// What events ask for.
#[derive(Clone, Copy, Debug, PartialEq, Eq, Structural)]
pub struct WatchNeeds {
    /// The file is to be read again.
    pub reload: bool,
    /// The file is to be watched anew.
    pub rewatch: bool,
}

/// What the events of several records ask for.
pub open spec fn needs_of(masks: Seq<u32>, m: WatchMasks) -> WatchNeeds {
    WatchNeeds {
        reload: exists|k: int| 0 <= k < masks.len() && asks_reload(#[trigger] masks[k], m),
        rewatch: exists|k: int| 0 <= k < masks.len() && asks_rewatch(#[trigger] masks[k], m),
    }
}

/// What is asked for by either of two.
pub open spec fn both_needs(a: WatchNeeds, b: WatchNeeds) -> WatchNeeds {
    WatchNeeds { reload: a.reload || b.reload, rewatch: a.rewatch || b.rewatch }
}

fn read_word(buf: &[u8], i: usize, order: ByteOrder) -> (r: u32)
    requires
        i + 4 <= buf@.len(),
    ensures
        r == word_at(buf@, i as int, order),
{
    let (a, b, c, d): (u32, u32, u32, u32) = (
        buf[i] as u32,
        buf[i + 1] as u32,
        buf[i + 2] as u32,
        buf[i + 3] as u32,
    );
    match order {
        ByteOrder::LittleEndian => a + 0x100 * b + 0x1_0000 * c + 0x100_0000 * d,
        ByteOrder::BigEndian => d + 0x100 * c + 0x1_0000 * b + 0x100_0000 * a,
    }
}

proof fn lemma_needs_push(masks: Seq<u32>, mask: u32, m: WatchMasks)
    ensures
        needs_of(masks.push(mask), m) == both_needs(
            needs_of(masks, m),
            WatchNeeds { reload: asks_reload(mask, m), rewatch: asks_rewatch(mask, m) },
        ),
{
    let all = masks.push(mask);
    assert(all[masks.len() as int] == mask);
    assert forall|k: int| 0 <= k < masks.len() implies #[trigger] all[k] == masks[k] by {}
    if needs_of(masks, m).reload {
        let k = choose|k: int| 0 <= k < masks.len() && asks_reload(#[trigger] masks[k], m);
        assert(asks_reload(all[k], m));
    }
    if needs_of(masks, m).rewatch {
        let k = choose|k: int| 0 <= k < masks.len() && asks_rewatch(#[trigger] masks[k], m);
        assert(asks_rewatch(all[k], m));
    }
    if needs_of(all, m).reload && !asks_reload(mask, m) {
        let k = choose|k: int| 0 <= k < all.len() && asks_reload(#[trigger] all[k], m);
        assert(asks_reload(masks[k], m));
    }
    if needs_of(all, m).rewatch && !asks_rewatch(mask, m) {
        let k = choose|k: int| 0 <= k < all.len() && asks_rewatch(#[trigger] all[k], m);
        assert(asks_rewatch(masks[k], m));
    }
}

/// Reads event records, whose numbers are in the order of the machine, and finds what
/// they ask for.
pub fn scan_events(buf: &[u8], order: ByteOrder, m: WatchMasks) -> (r: WatchNeeds)
    ensures
        r == needs_of(event_masks(buf@, 0, order), m),
{
    let n: usize = buf.len();
    let mut needs = WatchNeeds { reload: false, rewatch: false };
    let mut i: usize = 0;
    let ghost mut seen: Seq<u32> = Seq::empty();
    assert(seen + event_masks(buf@, 0, order) =~= event_masks(buf@, 0, order));
    while i <= n && n - i >= EVENT_HEADER
        invariant
            n == buf@.len(),
            needs == needs_of(seen, m),
            event_masks(buf@, 0, order) == seen + event_masks(buf@, i as int, order),
        decreases n - i,
    {
        let mask: u32 = read_word(buf, i + 4, order);
        let name_len: u32 = read_word(buf, i + 12, order);
        let ghost next = i + EVENT_HEADER + name_len;
        proof {
            lemma_needs_push(seen, mask, m);
            assert(seen + (seq![mask] + event_masks(buf@, next, order)) =~= seen.push(mask)
                + event_masks(buf@, next, order));
            seen = seen.push(mask);
        }
        if mask & (m.close_write | m.delete_self | m.move_self) != 0 {
            needs.reload = true;
        }
        if mask & (m.delete_self | m.move_self) != 0 {
            needs.rewatch = true;
        }
        let left: usize = n - i - EVENT_HEADER;
        if name_len as u64 > left as u64 {
            assert(event_masks(buf@, next, order) =~= Seq::<u32>::empty());
            assert(seen + event_masks(buf@, next, order) =~= seen);
            return needs;
        }
        i = i + EVENT_HEADER + name_len as usize;
    }
    assert(seen + event_masks(buf@, i as int, order) =~= seen);
    needs
}

/// What asks for the file to be watched anew asks for it to be read again.
pub proof fn law_rewatch_implies_reload(masks: Seq<u32>, m: WatchMasks)
    ensures
        needs_of(masks, m).rewatch ==> needs_of(masks, m).reload,
{
    if needs_of(masks, m).rewatch {
        let k = choose|k: int| 0 <= k < masks.len() && asks_rewatch(#[trigger] masks[k], m);
        let (x, c, d, v) = (masks[k], m.close_write, m.delete_self, m.move_self);
        assert(x & (d | v) != 0 ==> x & (c | d | v) != 0) by (bit_vector);
        assert(asks_reload(masks[k], m));
    }
}

// ---------------------------------------------------------------------------
// One round of watching
// ---------------------------------------------------------------------------
/// What the watcher is to do next.
#[derive(Clone, Copy, Debug, PartialEq, Eq, Structural)]
pub enum WatchStep {
    /// Wait for events.
    Poll,
    /// Read events.
    Read,
    /// Wait for the interval, and watch the file anew.
    Rewatch,
    /// Read the configuration file again.
    Reload,
    /// Give up watching, and look at the file at intervals instead.
    Disable,
    /// This round is over.
    Done,
}

/// How what the watcher did last went.
#[derive(Clone, Copy, Debug, PartialEq, Eq, Structural)]
pub enum WatchEvent {
    /// Waiting was interrupted.
    PollInterrupted,
    /// Waiting failed.
    PollFailed,
    /// No event came.
    PollTimeout,
    /// Events came.
    PollReady,
    /// Events were read that ask for this.
    ReadEvents(WatchNeeds),
    /// There are no more events to read for now.
    ReadDrained,
    /// Reading failed.
    ReadFailed,
    /// The file is watched anew.
    Rewatched,
    /// The file could not be watched anew.
    RewatchFailed,
    /// What was to be done is done.
    Finished,
}

/// Where the watcher stands in a round.
#[derive(Clone, Copy, Debug, PartialEq, Eq, Structural)]
pub struct WatchState {
    pub step: WatchStep,
    pub needs: WatchNeeds,
}

/// Where a round starts.
pub open spec fn round_start() -> WatchState {
    WatchState { step: WatchStep::Poll, needs: WatchNeeds { reload: false, rewatch: false } }
}

/// The step after all events were read.
pub open spec fn step_after_events(needs: WatchNeeds) -> WatchStep {
    if needs.rewatch {
        WatchStep::Rewatch
    } else if needs.reload {
        WatchStep::Reload
    } else {
        WatchStep::Done
    }
}

/// Where the watcher stands after `event`. An event that does not fit what was to be
/// done ends the round.
pub open spec fn watched(s: WatchState, event: WatchEvent) -> WatchState {
    let step = match (s.step, event) {
        (WatchStep::Poll, WatchEvent::PollReady) => WatchStep::Read,
        (WatchStep::Poll, WatchEvent::PollFailed) => WatchStep::Disable,
        (WatchStep::Read, WatchEvent::ReadEvents(_)) => WatchStep::Read,
        (WatchStep::Read, WatchEvent::ReadDrained) => step_after_events(s.needs),
        (WatchStep::Read, WatchEvent::ReadFailed) => WatchStep::Disable,
        (WatchStep::Rewatch, WatchEvent::Rewatched) => if s.needs.reload {
            WatchStep::Reload
        } else {
            WatchStep::Done
        },
        _ => WatchStep::Done,
    };
    WatchState {
        step,
        needs: match (s.step, event) {
            (WatchStep::Read, WatchEvent::ReadEvents(n)) => both_needs(s.needs, n),
            _ => s.needs,
        },
    }
}

/// Starts a round.
pub fn watch_round() -> (r: WatchState)
    ensures
        r == round_start(),
{
    WatchState { step: WatchStep::Poll, needs: WatchNeeds { reload: false, rewatch: false } }
}

/// Decides what the watcher is to do after `event`. Events that ask for a reload
/// make every earlier reading of the file void.
pub fn watch_next(s: WatchState, event: WatchEvent, last_mtime: &mut i64) -> (r: WatchState)
    ensures
        r == watched(s, event),
        *final(last_mtime) == if s.step == WatchStep::Read && (event matches WatchEvent::ReadEvents(
            n,
        ) && n.reload) {
            crate::config::NEVER_READ
        } else {
            *old(last_mtime)
        },
{
    let mut needs = s.needs;
    let mut step = WatchStep::Done;
    match s.step {
        WatchStep::Poll => match event {
            WatchEvent::PollReady => {
                step = WatchStep::Read;
            },
            WatchEvent::PollFailed => {
                step = WatchStep::Disable;
            },
            _ => {},
        },
        WatchStep::Read => match event {
            WatchEvent::ReadEvents(n) => {
                step = WatchStep::Read;
                if n.reload {
                    *last_mtime = crate::config::NEVER_READ;
                }
                needs =
                WatchNeeds {
                    reload: needs.reload || n.reload,
                    rewatch: needs.rewatch || n.rewatch,
                };
            },
            WatchEvent::ReadDrained => {
                if needs.rewatch {
                    step = WatchStep::Rewatch;
                } else if needs.reload {
                    step = WatchStep::Reload;
                }
            },
            WatchEvent::ReadFailed => {
                step = WatchStep::Disable;
            },
            _ => {},
        },
        WatchStep::Rewatch => match event {
            WatchEvent::Rewatched => {
                if needs.reload {
                    step = WatchStep::Reload;
                }
            },
            _ => {},
        },
        _ => {},
    }
    WatchState { step, needs }
}

// ---------------------------------------------------------------------------
// Starting and renewing the watch
// ---------------------------------------------------------------------------
/// What is to be done next to watch a file, and how that ended.
#[derive(Clone, Copy, Debug, PartialEq, Eq, Structural)]
pub enum SetupStep {
    /// Open a descriptor for events.
    Open,
    /// Find the file of the configuration in effect.
    FindFile,
    /// Take the earlier watch away.
    RemoveWatch,
    /// Turn the path of the file into the form that the system takes.
    ConvertPath,
    /// Add a watch of the file.
    AddWatch,
    /// Close the descriptor.
    Close,
    /// The file is watched.
    Watching,
    /// The file is looked at at intervals, and no descriptor is open.
    Polling,
    /// Nothing was changed.
    Unchanged,
}

/// How a step went.
#[derive(Clone, Copy, Debug, PartialEq, Eq, Structural)]
pub enum SetupOutcome {
    Done,
    Failed,
}

/// The step after `step`, which went as `outcome` says. Whether the earlier watch could
/// be taken away makes no difference.
pub open spec fn next_setup_step(step: SetupStep, outcome: SetupOutcome) -> SetupStep {
    match (step, outcome) {
        (SetupStep::Open, SetupOutcome::Done) => SetupStep::ConvertPath,
        (SetupStep::Open, SetupOutcome::Failed) => SetupStep::Polling,
        (SetupStep::FindFile, SetupOutcome::Done) => SetupStep::RemoveWatch,
        (SetupStep::FindFile, SetupOutcome::Failed) => SetupStep::Unchanged,
        (SetupStep::RemoveWatch, _) => SetupStep::ConvertPath,
        (SetupStep::ConvertPath, SetupOutcome::Done) => SetupStep::AddWatch,
        (SetupStep::ConvertPath, SetupOutcome::Failed) => SetupStep::Close,
        (SetupStep::AddWatch, SetupOutcome::Done) => SetupStep::Watching,
        (SetupStep::AddWatch, SetupOutcome::Failed) => SetupStep::Close,
        (SetupStep::Close, _) => SetupStep::Polling,
        (end, _) => end,
    }
}

/// Decides how starting or renewing the watch goes on. Starting begins with
/// `SetupStep::Open`, and renewing with `SetupStep::FindFile`.
pub fn watch_setup(step: SetupStep, outcome: SetupOutcome) -> (r: SetupStep)
    ensures
        r == next_setup_step(step, outcome),
{
    let done: bool = match outcome {
        SetupOutcome::Done => true,
        SetupOutcome::Failed => false,
    };
    match step {
        SetupStep::Open => if done {
            SetupStep::ConvertPath
        } else {
            SetupStep::Polling
        },
        SetupStep::FindFile => if done {
            SetupStep::RemoveWatch
        } else {
            SetupStep::Unchanged
        },
        SetupStep::RemoveWatch => SetupStep::ConvertPath,
        SetupStep::ConvertPath => if done {
            SetupStep::AddWatch
        } else {
            SetupStep::Close
        },
        SetupStep::AddWatch => if done {
            SetupStep::Watching
        } else {
            SetupStep::Close
        },
        SetupStep::Close => SetupStep::Polling,
        SetupStep::Watching => SetupStep::Watching,
        SetupStep::Polling => SetupStep::Polling,
        SetupStep::Unchanged => SetupStep::Unchanged,
    }
}

/// Where the setup stands after several steps.
pub open spec fn after_setup(start: SetupStep, outcomes: Seq<SetupOutcome>) -> SetupStep
    decreases outcomes.len(),
{
    if outcomes.len() == 0 {
        start
    } else {
        next_setup_step(after_setup(start, outcomes.drop_last()), outcomes.last())
    }
}

/// Starting ends with the file watched exactly if every step succeeds. Otherwise it ends
/// with the file looked at at intervals, and a descriptor that was opened is closed.
pub proof fn law_start_watches_or_polls(
    open: SetupOutcome,
    convert: SetupOutcome,
    add_watch: SetupOutcome,
    close: SetupOutcome,
)
    ensures
        ({
            let opened = next_setup_step(SetupStep::Open, open);
            let converted = next_setup_step(opened, convert);
            let added = next_setup_step(converted, add_watch);
            let end = next_setup_step(added, close);
            let good = open is Done && convert is Done && add_watch is Done;
            &&& end == if good {
                SetupStep::Watching
            } else {
                SetupStep::Polling
            }
            &&& (opened == SetupStep::Close || converted == SetupStep::Close || added
                == SetupStep::Close) == (open is Done && !good)
        }),
{
}

/// Renewing changes nothing without a file. With one it ends with the file watched
/// exactly if the path can be converted and the watch added, and otherwise the descriptor
/// is closed and the file looked at at intervals.
pub proof fn law_renewal_watches_or_polls(
    remove: SetupOutcome,
    convert: SetupOutcome,
    add_watch: SetupOutcome,
    close: SetupOutcome,
)
    ensures
        next_setup_step(SetupStep::FindFile, SetupOutcome::Failed) == SetupStep::Unchanged,
        ({
            let found = next_setup_step(SetupStep::FindFile, SetupOutcome::Done);
            let removed = next_setup_step(found, remove);
            let converted = next_setup_step(removed, convert);
            let added = next_setup_step(converted, add_watch);
            let end = next_setup_step(added, close);
            let good = convert is Done && add_watch is Done;
            &&& end == if good {
                SetupStep::Watching
            } else {
                SetupStep::Polling
            }
            &&& (converted == SetupStep::Close || added == SetupStep::Close) == !good
        }),
{
}

/// Setup never leads back from an end.
pub proof fn law_setup_ends_are_final(start: SetupStep, outcomes: Seq<SetupOutcome>)
    requires
        start is Watching || start is Polling || start is Unchanged,
    ensures
        after_setup(start, outcomes) == start,
    decreases outcomes.len(),
{
    if outcomes.len() > 0 {
        law_setup_ends_are_final(start, outcomes.drop_last());
    }
}

// ---------------------------------------------------------------------------
// What holds of rounds
// ---------------------------------------------------------------------------
/// Where the watcher stands after several reads of events.
pub open spec fn after_reads(s: WatchState, reads: Seq<WatchNeeds>) -> WatchState
    decreases reads.len(),
{
    if reads.len() == 0 {
        s
    } else {
        watched(after_reads(s, reads.drop_last()), WatchEvent::ReadEvents(reads.last()))
    }
}

/// No event that asks for a reload is lost: whatever is read before or after it in
/// the same round, the file is read again once all events are read, after it is
/// watched anew if an event asked for that.
pub proof fn law_no_event_is_lost(reads: Seq<WatchNeeds>, k: int)
    requires
        0 <= k < reads.len(),
        reads[k].reload,
    ensures
        ({
            let ready = watched(round_start(), WatchEvent::PollReady);
            let drained = watched(after_reads(ready, reads), WatchEvent::ReadDrained);
            ||| drained.step == WatchStep::Reload
            ||| drained.step == WatchStep::Rewatch && watched(
                drained,
                WatchEvent::Rewatched,
            ).step == WatchStep::Reload
        }),
{
    let ready = watched(round_start(), WatchEvent::PollReady);
    lemma_reads(ready, reads);
}

proof fn lemma_reads(s: WatchState, reads: Seq<WatchNeeds>)
    requires
        s.step == WatchStep::Read,
    ensures
        after_reads(s, reads).step == WatchStep::Read,
        after_reads(s, reads).needs.reload == (s.needs.reload || exists|k: int|
            0 <= k < reads.len() && (#[trigger] reads[k]).reload),
    decreases reads.len(),
{
    if reads.len() > 0 {
        let front = reads.drop_last();
        lemma_reads(s, front);
        if exists|k: int| 0 <= k < front.len() && (#[trigger] front[k]).reload {
            let k = choose|k: int| 0 <= k < front.len() && (#[trigger] front[k]).reload;
            assert(reads[k].reload);
        }
        if exists|k: int| 0 <= k < reads.len() && (#[trigger] reads[k]).reload {
            let k = choose|k: int| 0 <= k < reads.len() && (#[trigger] reads[k]).reload;
            if k < front.len() {
                assert(front[k].reload);
            }
        }
        assert(reads.last() == reads[reads.len() - 1]);
    }
}

} // verus!
