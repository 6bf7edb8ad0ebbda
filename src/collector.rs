//! The decisions of a telemetry collector: one background task per
//! container and stream (logs, resource stats, process table) that writes
//! to its own file until the shutdown signal fires.
use vstd::prelude::*;

verus! {

/// What woke a collector. When several are ready at once, the caller hands
/// over the shutdown signal first (see `first_ready`).
#[derive(Clone, Copy, Debug, PartialEq, Eq, Structural)]
pub enum Wake {
    /// The shutdown signal fired.
    Shutdown,
    /// The stream delivered an item.
    Item,
    /// The stream delivered an error in place of an item.
    ItemError,
    /// The polling interval elapsed.
    Tick,
    /// The stream has ended.
    Exhausted,
}

/// What a collector does about a wake.
#[derive(Clone, Copy, Debug, PartialEq, Eq, Structural)]
pub enum Reaction {
    /// Append the item to the collector's file.
    Append,
    /// Log the error and carry on.
    Skip,
    /// Poll the engine and append what it returns.
    Poll,
    /// Flush the file and end the task.
    Stop,
}

/// Of the wakes ready together, the one a collector reacts to: the
/// shutdown signal outranks everything else, so that termination is prompt.
pub fn first_ready(shutdown: bool, other: Option<Wake>) -> (r: Option<Wake>)
    ensures
        shutdown ==> r == Some(Wake::Shutdown),
        !shutdown ==> r == other,
{
    if shutdown {
        Some(Wake::Shutdown)
    } else {
        other
    }
}

pub open spec fn reaction_to(wake: Wake) -> Reaction {
    match wake {
        Wake::Shutdown => Reaction::Stop,
        Wake::Exhausted => Reaction::Stop,
        Wake::Item => Reaction::Append,
        Wake::ItemError => Reaction::Skip,
        Wake::Tick => Reaction::Poll,
    }
}

/// The reactions of a collector that meets `wakes` in order, having
/// stopped already when `stopped` holds.
pub open spec fn reactions(stopped: bool, wakes: Seq<Wake>) -> Seq<Reaction>
    decreases wakes.len(),
{
    if wakes.len() == 0 {
        Seq::empty()
    } else {
        let r = if stopped {
            Reaction::Stop
        } else {
            reaction_to(wakes[0])
        };
        seq![r] + reactions(stopped || r == Reaction::Stop, wakes.drop_first())
    }
}

/// One collector task's state.
pub struct Collector {
    pub stopped: bool,
}

impl Collector {
    pub fn new() -> (r: Collector)
        ensures
            !r.stopped,
    {
        Collector { stopped: false }
    }

    /// The reaction to `wake`. Once stopped, a collector only stops: it never
    /// appends or polls again.
    pub fn react(&mut self, wake: Wake) -> (r: Reaction)
        ensures
            r == (if old(self).stopped {
                Reaction::Stop
            } else {
                reaction_to(wake)
            }),
            final(self).stopped == (old(self).stopped || r == Reaction::Stop),
    {
        let r = if self.stopped {
            Reaction::Stop
        } else {
            match wake {
                Wake::Shutdown => Reaction::Stop,
                Wake::Exhausted => Reaction::Stop,
                Wake::Item => Reaction::Append,
                Wake::ItemError => Reaction::Skip,
                Wake::Tick => Reaction::Poll,
            }
        };
        if r == Reaction::Stop {
            self.stopped = true;
        }
        r
    }
}

/// No write after shutdown: once a collector has met the shutdown signal,
/// every later reaction is to stop; it appends and polls nothing more.
pub proof fn lemma_no_write_after_shutdown(stopped: bool, wakes: Seq<Wake>, i: int, j: int)
    requires
        0 <= i < j < wakes.len(),
        wakes[i] == Wake::Shutdown,
    ensures
        reactions(stopped, wakes)[j] == Reaction::Stop,
    decreases wakes.len(),
{
    let r = if stopped {
        Reaction::Stop
    } else {
        reaction_to(wakes[0])
    };
    let rest = wakes.drop_first();
    lemma_reactions_len(stopped || r == Reaction::Stop, rest);
    if i == 0 {
        lemma_stopped_stays(true, rest, j - 1);
    } else {
        lemma_no_write_after_shutdown(stopped || r == Reaction::Stop, rest, i - 1, j - 1);
    }
}

/// Receipt order: until the collector stops, every item it receives is
/// appended at the moment it arrives, so items reach the file in the order
/// the stream delivered them.
pub proof fn lemma_items_appended_in_order(wakes: Seq<Wake>, i: int)
    requires
        0 <= i < wakes.len(),
        wakes[i] == Wake::Item,
        forall|k: int|
            0 <= k < i ==> #[trigger] wakes[k] != Wake::Shutdown && wakes[k] != Wake::Exhausted,
    ensures
        reactions(false, wakes)[i] == Reaction::Append,
    decreases wakes.len(),
{
    let rest = wakes.drop_first();
    lemma_reactions_len(reaction_to(wakes[0]) == Reaction::Stop, rest);
    if i > 0 {
        assert(wakes[0] != Wake::Shutdown && wakes[0] != Wake::Exhausted);
        assert forall|k: int| 0 <= k < i - 1 implies #[trigger] rest[k] != Wake::Shutdown
            && rest[k] != Wake::Exhausted by {
            assert(rest[k] == wakes[k + 1]);
        }
        lemma_items_appended_in_order(rest, i - 1);
    }
}

proof fn lemma_reactions_len(stopped: bool, wakes: Seq<Wake>)
    ensures
        reactions(stopped, wakes).len() == wakes.len(),
    decreases wakes.len(),
{
    if wakes.len() > 0 {
        let r = if stopped {
            Reaction::Stop
        } else {
            reaction_to(wakes[0])
        };
        lemma_reactions_len(stopped || r == Reaction::Stop, wakes.drop_first());
    }
}

proof fn lemma_stopped_stays(stopped: bool, wakes: Seq<Wake>, k: int)
    requires
        stopped,
        0 <= k < wakes.len(),
    ensures
        reactions(stopped, wakes)[k] == Reaction::Stop,
    decreases wakes.len(),
{
    lemma_reactions_len(stopped, wakes.drop_first());
    if k > 0 {
        lemma_stopped_stays(stopped, wakes.drop_first(), k - 1);
    }
}

/// The title of the column that the process-table collector adds.
pub open spec fn timestamp_title() -> Seq<char> {
    "timestamp_nanos"@
}

/// The process-table file: a header once, then one row per process per
/// poll, each with the poll's time appended.
pub struct TopTable {
    pub header_written: bool,
}

impl TopTable {
    pub fn new() -> (r: TopTable)
        ensures
            !r.header_written,
    {
        TopTable { header_written: false }
    }

    /// The rows to append for one poll at time `now`, given the engine's
    /// column titles and process rows.
    pub fn rows_for_poll(&mut self, titles: &Vec<String>, processes: &Vec<Vec<String>>, now: &String) -> (r:
        Vec<Vec<String>>)
        ensures
            final(self).header_written,
            ({
                let h: int = if old(self).header_written {
                    0
                } else {
                    1
                };
                &&& r@.len() == h + processes@.len()
                &&& !old(self).header_written ==> r@[0]@.map_values(|s: String| s@) == titles@.map_values(
                    |s: String| s@,
                ).push(timestamp_title())
                &&& forall|i: int|
                    0 <= i < processes@.len() ==> (#[trigger] r@[h + i])@.map_values(|s: String| s@)
                        == processes@[i]@.map_values(|s: String| s@).push(now@)
            }),
    {
        let mut r: Vec<Vec<String>> = Vec::new();
        if !self.header_written {
            let mut header = crate::runner::clone_strings(titles);
            header.push(String::from_str("timestamp_nanos"));
            assert(header@.map_values(|s: String| s@) =~= titles@.map_values(|s: String| s@).push(
                timestamp_title(),
            ));
            r.push(header);
            self.header_written = true;
        }
        let ghost h = r@.len() as int;
        let mut i: usize = 0;
        while i < processes.len()
            invariant
                i <= processes@.len(),
                r@.len() == h + i,
                h == (if old(self).header_written {
                    0int
                } else {
                    1int
                }),
                !old(self).header_written ==> r@[0]@.map_values(|s: String| s@) == titles@.map_values(
                    |s: String| s@,
                ).push(timestamp_title()),
                forall|k: int|
                    0 <= k < i ==> (#[trigger] r@[h + k])@.map_values(|s: String| s@)
                        == processes@[k]@.map_values(|s: String| s@).push(now@),
            decreases processes@.len() - i,
        {
            let mut row = crate::runner::clone_strings(&processes[i]);
            row.push(now.clone());
            assert(row@.map_values(|s: String| s@) =~= processes@[i as int]@.map_values(
                |s: String| s@,
            ).push(now@));
            r.push(row);
            i = i + 1;
        }
        r
    }
}

} // verus!
