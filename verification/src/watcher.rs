//! Deciding which reported changes to the sources trigger a rebuild.
//!
//! The caller owns the file watcher.  For each event it hands the kind of the
//! event and the time to a `Debouncer`; when that accepts, the changed paths
//! go to `handle_files`, which says what to compile and copy again.

use vstd::prelude::*;

use crate::cli::Cli;
use crate::path::SitePath;
use crate::utils::{changed_assets, changed_posts, process_watched_files, WatchPlan, WatchedFile};

verus! {

/// The kind of a change reported by the file watcher.
#[derive(PartialEq, Eq, Structural, Debug, Clone, Copy)]
pub enum EventKind {
    /// Any kind, or one the watcher could not tell.
    Any,
    /// A file was read or opened.
    Access,
    /// A file or directory was created.
    Create,
    /// A file or directory was changed.
    Modify,
    /// A file or directory was removed.
    Remove,
    /// Something else.
    Other,
}

/// Only creations and modifications call for a rebuild.
pub open spec fn spec_should_process_event(kind: EventKind) -> bool {
    kind == EventKind::Create || kind == EventKind::Modify
}

/// Whether an event of this kind calls for a rebuild: creations and modifications.
pub fn should_process_event(kind: EventKind) -> (b: bool)
    ensures
        b == spec_should_process_event(kind),
{
    match kind {
        EventKind::Create | EventKind::Modify => true,
        _ => false,
    }
}

/// The quiet time after a handled event during which further events are
/// dropped, in nanoseconds (50 ms).
pub const DEBOUNCE_NANOS: u64 = 50_000_000;

/// The time from `last` to `now`, or zero when `now` is earlier.
pub open spec fn elapsed(last: u64, now: u64) -> int {
    if now >= last {
        now - last
    } else {
        0
    }
}

/// Drops the events that follow a handled one too closely.
pub struct Debouncer {
    /// When the last event was handled (or the watch started), in nanoseconds.
    pub last_event: u64,
}

impl Debouncer {
    /// Starts at time `start`: events within the quiet time after it are dropped too.
    pub fn new(start: u64) -> (d: Debouncer)
        ensures
            d.last_event == start,
    {
        Debouncer { last_event: start }
    }

    /// Whether the event of kind `kind` at time `now` is to be handled: it must
    /// be a creation or modification, and come more than the quiet time after
    /// the last handled event.  A handled event becomes the last one.
    pub fn accept(&mut self, kind: EventKind, now: u64) -> (b: bool)
        ensures
            b == (spec_should_process_event(kind) && elapsed(old(self).last_event, now)
                > DEBOUNCE_NANOS),
            final(self).last_event == if b {
                now
            } else {
                old(self).last_event
            },
    {
        let since = if now >= self.last_event {
            now - self.last_event
        } else {
            0
        };
        if should_process_event(kind) && since > DEBOUNCE_NANOS {
            self.last_event = now;
            true
        } else {
            false
        }
    }
}

/// Feeding the events `evs` (kind and time) to a debouncer that last handled
/// an event at `last`: the time of the last handled event afterwards, and the
/// times of the events handled, in order.
pub open spec fn debounce_run(last: u64, evs: Seq<(EventKind, u64)>) -> (u64, Seq<u64>)
    decreases evs.len(),
{
    if evs.len() == 0 {
        (last, Seq::empty())
    } else {
        let (l, handled) = debounce_run(last, evs.drop_last());
        let (kind, now) = evs.last();
        if spec_should_process_event(kind) && elapsed(l, now) > DEBOUNCE_NANOS {
            (now, handled.push(now))
        } else {
            (l, handled)
        }
    }
}

/// Times that never go back.
pub open spec fn times_ordered(start: u64, evs: Seq<(EventKind, u64)>) -> bool {
    &&& forall|i: int| 0 <= i < evs.len() ==> start <= (#[trigger] evs[i]).1
    &&& forall|i: int, j: int| 0 <= i < j < evs.len() ==> (#[trigger] evs[i]).1 <= (#[trigger] evs[j]).1
}

/// Handled events are spaced out.  With times that never go back, the first
/// handled event comes more than the quiet time after the start, and each
/// handled event more than the quiet time after the one handled before it.
pub proof fn lemma_debounce_spacing(start: u64, evs: Seq<(EventKind, u64)>)
    requires
        times_ordered(start, evs),
    ensures
        ({
            let (last, handled) = debounce_run(start, evs);
            &&& handled.len() > 0 ==> handled[0] - start > DEBOUNCE_NANOS
            &&& forall|i: int, j: int|
                0 <= i && j == i + 1 && j < handled.len() ==> #[trigger] handled[j] - #[trigger] handled[i]
                    > DEBOUNCE_NANOS
            &&& last == if handled.len() == 0 {
                start
            } else {
                handled.last()
            }
        }),
    decreases evs.len(),
{
    if evs.len() > 0 {
        let prev = evs.drop_last();
        assert(times_ordered(start, prev)) by {
            assert forall|i: int, j: int| 0 <= i < j < prev.len() implies (#[trigger] prev[i]).1
                <= (#[trigger] prev[j]).1 by {
                assert(prev[i] == evs[i] && prev[j] == evs[j]);
            }
            assert forall|i: int| 0 <= i < prev.len() implies start <= (#[trigger] prev[i]).1 by {
                assert(prev[i] == evs[i]);
            }
        }
        lemma_debounce_spacing(start, prev);
        let (l, handled) = debounce_run(start, prev);
        let (kind, now) = evs.last();
        assert(evs.last() == evs[evs.len() - 1]);
        assert(start <= now);
        if handled.len() > 0 {
            // the last handled event of `prev` came from some event of `prev`
            lemma_debounce_handled_from(start, prev);
            let k = choose|k: int| 0 <= k < prev.len() && prev[k].1 == handled.last();
            assert(prev[k] == evs[k]);
            assert(handled.last() <= now);
        }
    }
}

/// Every handled time is the time of one of the events.
proof fn lemma_debounce_handled_from(start: u64, evs: Seq<(EventKind, u64)>)
    ensures
        forall|h: int|
            0 <= h < debounce_run(start, evs).1.len() ==> exists|k: int|
                0 <= k < evs.len() && evs[k].1 == #[trigger] debounce_run(start, evs).1[h],
    decreases evs.len(),
{
    if evs.len() > 0 {
        let prev = evs.drop_last();
        lemma_debounce_handled_from(start, prev);
        let handled = debounce_run(start, evs).1;
        let before = debounce_run(start, prev).1;
        assert forall|h: int| 0 <= h < handled.len() implies exists|k: int|
            0 <= k < evs.len() && evs[k].1 == #[trigger] handled[h] by {
            if h < before.len() {
                assert(handled[h] == before[h]);
                let k = choose|k: int| 0 <= k < prev.len() && prev[k].1 == before[h];
                assert(evs[k] == prev[k]);
            } else {
                assert(evs[evs.len() - 1].1 == handled[h]);
            }
        }
    }
}

/// What to rebuild after the files `paths` changed: the posts and the assets
/// among them, as `process_watched_files` sorts them.
pub fn handle_files(paths: &Vec<WatchedFile>, cwd: &SitePath, cli: &Cli) -> (plan: WatchPlan)
    requires
        forall|i: int|
            0 <= i < paths@.len() && (#[trigger] paths@[i]).is_file ==> paths@[i].path@.strip_prefix(
                cwd@,
            ) is Some,
    ensures
        plan.posts@.map_values(|p: SitePath| p@) == changed_posts(paths@),
        plan.assets@.map_values(|p: SitePath| p@) == changed_assets(
            paths@,
            cwd@,
            cli.assets_dir@,
        ),
{
    process_watched_files(paths, cwd, cli)
}

} // verus!
