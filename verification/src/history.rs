//! The elapsed times of earlier tasks, by which new tasks are prioritized.

use crate::clock;
use crate::text::{join_path, same_text};
use vstd::prelude::*;

verus! {

/// Entries older than this, about six months, are dropped: half of 366 days.
pub const RETENTION: u128 = 15_811_200_000_000_000;

/// What is known of each target: how long the task took, and when that was recorded.
pub type Records = Map<Seq<char>, (u128, u128)>;

/// What is known of one target.
#[derive(Debug, Clone, PartialEq, Eq)]
pub struct HistoryEntry {
    /// The unique target: an output file or a command line.
    pub target: String,
    /// How long the task took.
    pub elapsed: u128,
    /// When that was recorded.
    pub as_of: u128,
}

/// The records that a list of entries amounts to; a later entry replaces an earlier one.
pub open spec fn records_of(entries: Seq<HistoryEntry>) -> Records
    decreases entries.len(),
{
    if entries.len() == 0 {
        Map::empty()
    } else {
        let last = entries.last();
        records_of(entries.drop_last()).insert(last.target@, (last.elapsed, last.as_of))
    }
}

/// True if no target occurs twice.
pub open spec fn distinct_targets(entries: Seq<HistoryEntry>) -> bool {
    forall|i: int, j: int|
        0 <= i < j < entries.len() ==> (#[trigger] entries[i]).target@ != (
        #[trigger] entries[j]).target@
}

/// True if an entry recorded at `as_of` is still of use at `now`.
pub open spec fn fresh(as_of: u128, now: u128) -> bool {
    as_of + RETENTION > now
}

/// The records that are still of use at `now`.
pub open spec fn fresh_records(records: Records, now: u128) -> Records {
    records.restrict(Set::new(|target: Seq<char>| fresh(records[target].1, now)))
}

/// The records of two histories. Of a target that is in both, the one that was recorded later
/// counts, and the incoming one if both were recorded at the same time.
pub open spec fn latest_records(existing: Records, incoming: Records) -> Records {
    Map::new(
        |target: Seq<char>| existing.contains_key(target) || incoming.contains_key(target),
        |target: Seq<char>|
            if incoming.contains_key(target) && !(existing.contains_key(target)
                && existing[target].1 > incoming[target].1) {
                incoming[target]
            } else {
                existing[target]
            },
    )
}

/// The latest records of two histories that are still of use at `now`.
pub open spec fn merged_records(existing: Records, recorded: Records, now: u128) -> Records {
    fresh_records(latest_records(existing, recorded), now)
}

/// Maps a unique target to the elapsed time of its latest task and the time of the record.
#[derive(Debug, Clone)]
pub struct History {
    version: u32,
    entries: Vec<HistoryEntry>,
}

impl View for History {
    type V = Records;

    closed spec fn view(&self) -> Records {
        records_of(self.entries@)
    }
}

proof fn lemma_records(entries: Seq<HistoryEntry>)
    requires
        distinct_targets(entries),
    ensures
        forall|i: int|
            0 <= i < entries.len() ==> records_of(entries).contains_key(
                (#[trigger] entries[i]).target@,
            ) && records_of(entries)[entries[i].target@] == (entries[i].elapsed, entries[i].as_of),
        forall|t: Seq<char>| #[trigger]
            records_of(entries).contains_key(t) ==> exists|i: int|
                0 <= i < entries.len() && (#[trigger] entries[i]).target@ == t,
    decreases entries.len(),
{
    if entries.len() > 0 {
        let front = entries.drop_last();
        lemma_records(front);
        assert forall|i: int| 0 <= i < entries.len() implies records_of(entries).contains_key(
            (#[trigger] entries[i]).target@,
        ) && records_of(entries)[entries[i].target@] == (entries[i].elapsed, entries[i].as_of) by {
            if i < front.len() {
                assert(front[i] == entries[i]);
                assert(entries[i].target@ != entries[entries.len() - 1].target@);
            }
        }
        assert forall|t: Seq<char>| #[trigger] records_of(entries).contains_key(t) implies exists|
            i: int,
        | 0 <= i < entries.len() && (#[trigger] entries[i]).target@ == t by {
            if t == entries.last().target@ {
                assert(entries[entries.len() - 1].target@ == t);
            } else {
                assert(records_of(front).contains_key(t));
                let i = choose|i: int| 0 <= i < front.len() && (#[trigger] front[i]).target@ == t;
                assert(entries[i].target@ == t);
            }
        }
    }
}

impl History {
    /// No target is recorded twice.
    pub closed spec fn wf(&self) -> bool {
        distinct_targets(self.entries@)
    }

    /// The version of the file format.
    pub closed spec fn spec_version(&self) -> u32 {
        self.version
    }

    /// The version of the file format.
    pub fn version(&self) -> (version: u32)
        ensures
            version == self.spec_version(),
    {
        self.version
    }

    /// The recorded entries.
    pub fn entries(&self) -> (entries: &Vec<HistoryEntry>)
        requires
            self.wf(),
        ensures
            records_of(entries@) == self@,
            distinct_targets(entries@),
    {
        &self.entries
    }

    /// A history that holds the given entries; a later entry replaces an earlier one.
    pub fn from_entries(version: u32, entries: Vec<HistoryEntry>) -> (history: History)
        ensures
            history.wf(),
            history.spec_version() == version,
            history@ == records_of(entries@),
    {
        let mut history = History { version, entries: Vec::new() };
        let mut i: usize = 0;
        while i < entries.len()
            invariant
                i <= entries@.len(),
                history.wf(),
                history.spec_version() == version,
                history@ == records_of(entries@.take(i as int)),
            decreases entries@.len() - i,
        {
            let entry = &entries[i];
            history.test_update(entry.target.as_str(), entry.elapsed, entry.as_of);
            assert(entries@.take(i + 1).drop_last() =~= entries@.take(i as int));
            i = i + 1;
        }
        assert(entries@.take(i as int) =~= entries@);
        history
    }

    fn find(&self, target: &str) -> (found: Option<usize>)
        requires
            self.wf(),
        ensures
            match found {
                Some(i) => {
                    &&& i < self.entries@.len()
                    &&& self.entries@[i as int].target@ == target@
                    &&& self@.contains_key(target@)
                    &&& self@[target@] == (
                        self.entries@[i as int].elapsed,
                        self.entries@[i as int].as_of,
                    )
                },
                None => !self@.contains_key(target@),
            },
    {
        proof {
            lemma_records(self.entries@);
        }
        let mut i: usize = 0;
        while i < self.entries.len()
            invariant
                i <= self.entries@.len(),
                forall|k: int| 0 <= k < i ==> (#[trigger] self.entries@[k]).target@ != target@,
                forall|k: int|
                    0 <= k < self.entries@.len() ==> self@.contains_key(
                        (#[trigger] self.entries@[k]).target@,
                    ) && self@[self.entries@[k].target@] == (
                        self.entries@[k].elapsed,
                        self.entries@[k].as_of,
                    ),
            decreases self.entries@.len() - i,
        {
            if same_text(self.entries[i].target.as_str(), target) {
                return Some(i);
            }
            i = i + 1;
        }
        None
    }

    /// True if no records have been loaded or added.
    pub fn is_empty(&self) -> (empty: bool)
        requires
            self.wf(),
        ensures
            empty == (self@ == Map::<Seq<char>, (u128, u128)>::empty()),
    {
        proof {
            lemma_records(self.entries@);
            if self.entries@.len() > 0 {
                assert(self@.contains_key(self.entries@[0].target@));
            }
        }
        self.entries.len() == 0
    }

    /// Returns the elapsed time of the task that made the target, if it is recorded.
    pub fn get(&self, target: &str) -> (elapsed: Option<u128>)
        requires
            self.wf(),
        ensures
            elapsed == (if self@.contains_key(target@) {
                Some(self@[target@].0)
            } else {
                None
            }),
    {
        match self.find(target) {
            Some(i) => Some(self.entries[i].elapsed),
            None => None,
        }
    }

    /// Records a new elapsed time, as of now. Any existing entry is replaced.
    pub fn update(&mut self, target: &str, elapsed: u128)
        requires
            old(self).wf(),
        ensures
            final(self).wf(),
            final(self).spec_version() == old(self).spec_version(),
            exists|as_of: u128|
                as_of <= clock::LONGEST_SPAN && final(self)@ == #[trigger] old(self)@.insert(
                    target@,
                    (elapsed, as_of),
                ),
    {
        let as_of: u128 = clock::now();
        self.test_update(target, elapsed, as_of);
    }

    /// Records a new elapsed time with the time of the record. Any existing entry is replaced.
    pub fn test_update(&mut self, target: &str, elapsed: u128, as_of: u128)
        requires
            old(self).wf(),
        ensures
            final(self).wf(),
            final(self).spec_version() == old(self).spec_version(),
            final(self)@ == old(self)@.insert(target@, (elapsed, as_of)),
    {
        let found = self.find(target);
        let entry = HistoryEntry { target: target.to_owned(), elapsed, as_of };
        proof {
            lemma_records(old(self).entries@);
        }
        match found {
            Some(i) => {
                self.entries.set(i, entry);
                assert(distinct_targets(self.entries@));
                proof {
                    lemma_records(self.entries@);
                }
                assert forall|t: Seq<char>|
                    self@.contains_key(t) == old(self)@.insert(
                        target@,
                        (elapsed, as_of),
                    ).contains_key(t) by {
                    if self@.contains_key(t) && t != target@ {
                        let k = choose|k: int|
                            0 <= k < self.entries@.len() && (#[trigger] self.entries@[k]).target@
                                == t;
                        assert(old(self).entries@[k] == self.entries@[k]);
                    }
                    if old(self)@.contains_key(t) && t != target@ {
                        let k = choose|k: int|
                            0 <= k < old(self).entries@.len() && (#[trigger] old(
                                self,
                            ).entries@[k]).target@ == t;
                        assert(old(self).entries@[k] == self.entries@[k]);
                    }
                    assert(self.entries@[i as int].target@ == target@);
                }
                assert forall|t: Seq<char>| self@.contains_key(t) && t != target@ implies self@[t]
                    == old(self)@[t] by {
                    let k = choose|k: int|
                        0 <= k < self.entries@.len() && (#[trigger] self.entries@[k]).target@ == t;
                    assert(old(self).entries@[k] == self.entries@[k]);
                }
                assert(self@ =~= old(self)@.insert(target@, (elapsed, as_of)));
            },
            None => {
                self.entries.push(entry);
                assert(self.entries@.drop_last() =~= old(self).entries@);
                assert(distinct_targets(self.entries@));
            },
        }
    }

    /// Takes over the entries of the incoming history that are more recent than its own, and those
    /// that it does not have.
    pub fn merge(&mut self, incoming: History)
        requires
            old(self).wf(),
            incoming.wf(),
        ensures
            final(self).wf(),
            final(self).spec_version() == old(self).spec_version(),
            final(self)@ == latest_records(old(self)@, incoming@),
    {
        let mut i: usize = 0;
        assert(self@ =~= latest_records(old(self)@, records_of(incoming.entries@.take(0))));
        while i < incoming.entries.len()
            invariant
                i <= incoming.entries@.len(),
                self.wf(),
                incoming.wf(),
                self.spec_version() == old(self).spec_version(),
                self@ == latest_records(old(self)@, records_of(incoming.entries@.take(i as int))),
            decreases incoming.entries@.len() - i,
        {
            let entry = &incoming.entries[i];
            let ghost before = incoming.entries@.take(i as int);
            proof {
                assert(incoming.entries@.take(i + 1).drop_last() =~= before);
                lemma_records(before);
                if records_of(before).contains_key(entry.target@) {
                    let k = choose|k: int|
                        0 <= k < before.len() && (#[trigger] before[k]).target@ == entry.target@;
                    assert(incoming.entries@[k].target@ == incoming.entries@[i as int].target@);
                }
            }
            let outdated: bool = match self.find(entry.target.as_str()) {
                Some(k) => self.entries[k].as_of > entry.as_of,
                None => false,
            };
            if !outdated {
                self.test_update(entry.target.as_str(), entry.elapsed, entry.as_of);
            }
            assert(self@ =~= latest_records(
                old(self)@,
                records_of(incoming.entries@.take(i + 1)),
            ));
            i = i + 1;
        }
        assert(incoming.entries@.take(i as int) =~= incoming.entries@);
    }

    /// Drops the entries that are no longer of use at `now`, to avoid unbounded growth.
    pub fn purge(&mut self, now: u128)
        requires
            old(self).wf(),
        ensures
            final(self).wf(),
            final(self).spec_version() == old(self).spec_version(),
            final(self)@ == fresh_records(old(self)@, now),
    {
        let mut kept: Vec<HistoryEntry> = Vec::new();
        let mut i: usize = 0;
        assert(records_of(kept@) =~= fresh_records(records_of(self.entries@.take(0)), now));
        while i < self.entries.len()
            invariant
                *self == *old(self),
                self.wf(),
                i <= self.entries@.len(),
                distinct_targets(kept@),
                records_of(kept@) == fresh_records(records_of(self.entries@.take(i as int)), now),
            decreases self.entries@.len() - i,
        {
            let entry = &self.entries[i];
            let ghost before = self.entries@.take(i as int);
            let ghost after = self.entries@.take(i + 1);
            let ghost kept_before = kept@;
            proof {
                assert(after.drop_last() =~= before);
                lemma_records(before);
                lemma_records(kept@);
                if records_of(before).contains_key(entry.target@) {
                    let k = choose|k: int|
                        0 <= k < before.len() && (#[trigger] before[k]).target@ == entry.target@;
                    assert(self.entries@[k].target@ == self.entries@[i as int].target@);
                }
            }
            if entry.as_of > now || now - entry.as_of < RETENTION {
                kept.push(
                    HistoryEntry {
                        target: entry.target.clone(),
                        elapsed: entry.elapsed,
                        as_of: entry.as_of,
                    },
                );
                assert(kept@.drop_last() =~= kept_before);
                assert forall|a: int, b: int| 0 <= a < b < kept@.len() implies (
                #[trigger] kept@[a]).target@ != (#[trigger] kept@[b]).target@ by {
                    assert(kept@[a] == kept_before[a]);
                    assert(records_of(kept_before).contains_key(kept_before[a].target@));
                }
            }
            assert(records_of(kept@) =~= fresh_records(records_of(after), now));
            i = i + 1;
        }
        assert(self.entries@.take(i as int) =~= self.entries@);
        self.entries = kept;
    }

    /// What belongs in the history file: the recorded history is merged into the one that is in
    /// the file already, if there is one, and stale entries are dropped.
    pub fn to_write(existing: Option<History>, recorded: History, now: u128) -> (total: History)
        requires
            existing is Some ==> existing->0.wf(),
            recorded.wf(),
        ensures
            total.wf(),
            total.spec_version() == (match existing {
                Some(history) => history.spec_version(),
                None => 1,
            }),
            total@ == merged_records(
                match existing {
                    Some(history) => history@,
                    None => Map::empty(),
                },
                recorded@,
                now,
            ),
    {
        let mut total: History = match existing {
            Some(history) => history,
            None => History::default(),
        };
        total.merge(recorded);
        total.purge(now);
        total
    }
}

impl Default for History {
    /// A history without entries.
    fn default() -> (history: History)
        ensures
            history.wf(),
            history.spec_version() == 1,
            history@ == Map::<Seq<char>, (u128, u128)>::empty(),
    {
        History { version: 1, entries: Vec::new() }
    }
}

/// The name of the history file in the user's home directory.
pub const HISTORY_FILE: &'static str = ".spraycc.history";

/// Where the history file is, given the user's home directory.
pub fn path_to_history(home_dir: &str) -> (path: String)
    ensures
        path@ == crate::text::path_join(home_dir@, HISTORY_FILE@),
{
    join_path(home_dir, HISTORY_FILE)
}

/// Law: what was recorded just now is what the next server reads, unless the file holds a record
/// of the same target that was made later.
pub proof fn law_recorded_is_read_back(
    existing: Records,
    recorded: Records,
    now: u128,
    target: Seq<char>,
)
    requires
        recorded.contains_key(target),
        fresh(recorded[target].1, now),
        existing.contains_key(target) ==> existing[target].1 <= recorded[target].1,
    ensures
        merged_records(existing, recorded, now).contains_key(target),
        merged_records(existing, recorded, now)[target] == recorded[target],
{
}

/// Law: merging never replaces a record by an older one, and leaves no target out.
pub proof fn law_merging_keeps_the_latest(existing: Records, incoming: Records, target: Seq<char>)
    ensures
        existing.contains_key(target) ==> latest_records(existing, incoming).contains_key(target)
            && latest_records(existing, incoming)[target].1 >= existing[target].1,
        incoming.contains_key(target) ==> latest_records(existing, incoming).contains_key(target)
            && latest_records(existing, incoming)[target].1 >= incoming[target].1,
        latest_records(existing, incoming).contains_key(target) ==> (existing.contains_key(target)
            && latest_records(existing, incoming)[target] == existing[target]) || (
        incoming.contains_key(target) && latest_records(existing, incoming)[target]
            == incoming[target]),
{
}

/// Law: a target that was not recorded anew keeps its entry for as long as that is of use, and
/// is forgotten afterwards.
pub proof fn law_other_targets_age(
    existing: Records,
    recorded: Records,
    now: u128,
    target: Seq<char>,
)
    requires
        !recorded.contains_key(target),
    ensures
        merged_records(existing, recorded, now).contains_key(target) <==> existing.contains_key(
            target,
        ) && fresh(existing[target].1, now),
        merged_records(existing, recorded, now).contains_key(target) ==> merged_records(
            existing,
            recorded,
            now,
        )[target] == existing[target],
{
}

/// Law: no entry older than the retention period is ever written.
pub proof fn law_stale_is_never_written(
    existing: Records,
    recorded: Records,
    now: u128,
    target: Seq<char>,
)
    requires
        merged_records(existing, recorded, now).contains_key(target),
    ensures
        fresh(merged_records(existing, recorded, now)[target].1, now),
{
}

/// Law: writing the same history a second time changes nothing.
pub proof fn law_writing_twice(existing: Records, recorded: Records, now: u128)
    ensures
        merged_records(merged_records(existing, recorded, now), recorded, now) == merged_records(
            existing,
            recorded,
            now,
        ),
{
    assert(merged_records(merged_records(existing, recorded, now), recorded, now)
        =~= merged_records(existing, recorded, now));
}

/// Law: a record is of use for 183 days, and not a nanosecond longer.
pub proof fn law_records_last_half_a_year(as_of: u128, now: u128)
    ensures
        fresh(as_of, now) <==> now - as_of < 183 * 24 * 60 * 60 * 1_000_000_000int,
{
}

/// Law: dropping what is stale leaves each record of the last 183 days as it is, and no other.
pub proof fn law_what_is_dropped(records: Records, now: u128, target: Seq<char>)
    ensures
        fresh_records(records, now).contains_key(target) <==> records.contains_key(target) && now
            - records[target].1 < 183 * 24 * 60 * 60 * 1_000_000_000int,
        fresh_records(records, now).contains_key(target) ==> fresh_records(records, now)[target]
            == records[target],
{
}

/// Law: merged histories have the targets of both. Of a target that only one has, they have that
/// record; of one that both have, the one that was recorded later, and the incoming one if both were
/// recorded at once.
pub proof fn law_which_record_counts(existing: Records, incoming: Records, target: Seq<char>)
    ensures
        ({
            let latest = latest_records(existing, incoming);
            let old = existing.contains_key(target);
            let new = incoming.contains_key(target);
            &&& latest.contains_key(target) <==> old || new
            &&& old && !new ==> latest[target] == existing[target]
            &&& new && !old ==> latest[target] == incoming[target]
            &&& old && new && existing[target].1 > incoming[target].1 ==> latest[target]
                == existing[target]
            &&& old && new && existing[target].1 <= incoming[target].1 ==> latest[target]
                == incoming[target]
        }),
{
}

/// Law: what is written to the file is the latest record of each target of either history, as far as
/// it was made in the last 183 days. Other targets are not in the file.
pub proof fn law_what_is_in_the_file(
    existing: Records,
    recorded: Records,
    now: u128,
    target: Seq<char>,
)
    ensures
        ({
            let file = merged_records(existing, recorded, now);
            let limit = 183 * 24 * 60 * 60 * 1_000_000_000int;
            let old = existing.contains_key(target);
            let new = recorded.contains_key(target);
            &&& file.contains_key(target) ==> old || new
            &&& new && (old ==> existing[target].1 <= recorded[target].1) ==> {
                &&& file.contains_key(target) <==> now - recorded[target].1 < limit
                &&& file.contains_key(target) ==> file[target] == recorded[target]
            }
            &&& old && (new ==> existing[target].1 > recorded[target].1) ==> {
                &&& file.contains_key(target) <==> now - existing[target].1 < limit
                &&& file.contains_key(target) ==> file[target] == existing[target]
            }
        }),
{
}

/// Law: a list of entries records for each target what the last of its entries says, and nothing of a
/// target without an entry.
pub proof fn law_the_last_entry_counts(entries: Seq<HistoryEntry>, target: Seq<char>, i: int)
    ensures
        0 <= i < entries.len() && entries[i].target@ == target && (forall|j: int|
            i < j < entries.len() ==> (#[trigger] entries[j]).target@ != target) ==> {
            &&& records_of(entries).contains_key(target)
            &&& records_of(entries)[target].0 == entries[i].elapsed
            &&& records_of(entries)[target].1 == entries[i].as_of
        },
        (forall|j: int| 0 <= j < entries.len() ==> (#[trigger] entries[j]).target@ != target)
            ==> !records_of(entries).contains_key(target),
    decreases entries.len(),
{
    if entries.len() > 0 {
        let front = entries.drop_last();
        law_the_last_entry_counts(front, target, i);
        assert(forall|j: int| 0 <= j < front.len() ==> front[j] == entries[j]);
        assert(entries[entries.len() - 1] == entries.last());
    }
}

/// Law: the history is kept in the file `.spraycc.history`, below the home directory.
pub proof fn law_name_of_the_history_file(home_dir: Seq<char>)
    ensures
        crate::text::path_join(home_dir, HISTORY_FILE@) == crate::text::path_join(
            home_dir,
            ".spraycc.history"@,
        ),
{
}

} // verus!
