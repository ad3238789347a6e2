//! Ad-hoc CPU / redraw rate probe for performance investigations.
//!
//! While the probe is enabled, call [`record`] (or [`time`] and [`Timing::finish`]) from hot
//! paths; roughly once per second the accumulated per-category counts and timings come back as a
//! [`Report`] to be logged. While it is disabled nothing is counted.
//!
//! The state of a probe is held by whoever calls, and so are the clock and the switch: every
//! function takes the readings it needs. Clock readings and durations are in nanoseconds; a
//! duration is at most [`MAX_DURATION`].

use vstd::prelude::*;

use crate::text::{same_text, text_order, TextOrder};

verus! {

use crate::text::{
    lemma_text_before_irreflexive,
    lemma_text_before_transitive,
    text_before,
};

/// How long a probe accumulates before it reports: one second.
pub const FLUSH_INTERVAL: u128 = 1_000_000_000;

/// The longest duration: 2^64 seconds less one nanosecond.
pub const MAX_DURATION: u128 = 18_446_744_073_709_551_615_999_999_999;

/// What was recorded of one category since the last report.
#[derive(Clone, Copy, Debug, PartialEq, Eq, Structural)]
pub struct CategoryStats {
    pub count: u64,
    pub total: u128,
    pub max: u128,
}

#[derive(Clone, Copy, Debug)]
struct CategoryEntry {
    category: &'static str,
    stats: CategoryStats,
}

/// Counts and timings by category, and when they were last reported.
#[derive(Debug)]
pub struct Probe {
    last_flush: u128,
    entries: Vec<CategoryEntry>,
}

/// What one category comes to in a report. A category that took no time is only counted.
#[derive(Clone, Copy, Debug)]
pub enum ReportLine {
    Counted { category: &'static str, count: u64 },
    Timed { category: &'static str, count: u64, total: u128, max: u128 },
}

/// What accumulated over `interval`: one line for each category, in the order of their names.
#[derive(Debug)]
pub struct Report {
    pub interval: u128,
    pub lines: Vec<ReportLine>,
}

/// A running measurement of one category.
#[derive(Debug)]
pub struct Timing {
    category: &'static str,
    start: u128,
}

/// The state of a [`Probe`]: when it last reported, and the statistics by category.
#[verifier::ext_equal]
pub ghost struct ProbeView {
    pub last_flush: u128,
    pub stats: Map<Seq<char>, CategoryStats>,
}

spec fn entry_at(entries: Seq<CategoryEntry>, category: Seq<char>, ix: int) -> bool {
    0 <= ix < entries.len() && entries[ix].category@ == category
}

spec fn has_entry(entries: Seq<CategoryEntry>, category: Seq<char>) -> bool {
    exists|ix: int| entry_at(entries, category, ix)
}

spec fn entry_of(entries: Seq<CategoryEntry>, category: Seq<char>) -> CategoryStats {
    entries[choose|ix: int| entry_at(entries, category, ix)].stats
}

spec fn stats_by_category(entries: Seq<CategoryEntry>) -> Map<Seq<char>, CategoryStats> {
    Map::new(|c: Seq<char>| has_entry(entries, c), |c: Seq<char>| entry_of(entries, c))
}

spec fn in_order(entries: Seq<CategoryEntry>) -> bool {
    forall|i: int, j: int|
        0 <= i < j < entries.len() ==> text_before(
            (#[trigger] entries[i]).category@,
            (#[trigger] entries[j]).category@,
        )
}

impl View for Probe {
    type V = ProbeView;

    closed spec fn view(&self) -> ProbeView {
        ProbeView { last_flush: self.last_flush, stats: stats_by_category(self.entries@) }
    }
}

impl Probe {
    /// Each category has one entry, and the entries stand in the order of their names.
    pub closed spec fn wf(&self) -> bool {
        in_order(self.entries@)
    }
}

/// Statistics in which nothing was recorded.
pub open spec fn no_stats() -> CategoryStats {
    CategoryStats { count: 0, total: 0, max: 0 }
}

impl ProbeView {
    /// What was recorded of `category` since the last report.
    pub open spec fn of(self, category: Seq<char>) -> CategoryStats {
        if self.stats.dom().contains(category) {
            self.stats[category]
        } else {
            no_stats()
        }
    }
}

/// How long an occurrence took; one that was only counted took no time.
pub open spec fn time_taken(elapsed: Option<u128>) -> u128 {
    match elapsed {
        Some(elapsed) => elapsed,
        None => 0,
    }
}

/// The statistics with one more occurrence.
pub open spec fn one_more(stats: CategoryStats, elapsed: Option<u128>) -> CategoryStats {
    CategoryStats {
        count: (stats.count + 1) as u64,
        total: (stats.total + time_taken(elapsed)) as u128,
        max: if stats.max < time_taken(elapsed) {
            time_taken(elapsed)
        } else {
            stats.max
        },
    }
}

/// Whether one more occurrence can be added: the count and the total time stay in range.
pub open spec fn one_more_fits(stats: CategoryStats, elapsed: Option<u128>) -> bool {
    stats.count < u64::MAX && stats.total + time_taken(elapsed) <= MAX_DURATION
}

/// The time from the reading `earlier` to the reading `later`, and none where the clock went
/// back.
pub open spec fn time_between(earlier: u128, later: u128) -> u128 {
    if earlier <= later {
        (later - earlier) as u128
    } else {
        0
    }
}

/// The state that is recorded into: the probe's, or that of one opened at `opened`.
pub open spec fn probe_state(slot: Option<Probe>, opened: u128) -> ProbeView {
    match slot {
        Some(probe) => probe@,
        None => ProbeView { last_flush: opened, stats: Map::empty() },
    }
}

/// Whether the probe, where there is one, is well-formed.
pub open spec fn slot_wf(slot: Option<Probe>) -> bool {
    match slot {
        Some(probe) => probe.wf(),
        None => true,
    }
}

/// The state with one more occurrence of `category`.
pub open spec fn recorded(
    state: ProbeView,
    category: Seq<char>,
    elapsed: Option<u128>,
) -> ProbeView {
    ProbeView {
        last_flush: state.last_flush,
        stats: state.stats.insert(category, one_more(state.of(category), elapsed)),
    }
}

/// What a [`ReportLine`] says.
#[verifier::ext_equal]
pub ghost enum ReportLineView {
    Counted { category: Seq<char>, count: u64 },
    Timed { category: Seq<char>, count: u64, total: u128, max: u128 },
}

impl View for ReportLine {
    type V = ReportLineView;

    open spec fn view(&self) -> ReportLineView {
        match *self {
            ReportLine::Counted { category, count } => ReportLineView::Counted {
                category: category@,
                count,
            },
            ReportLine::Timed { category, count, total, max } => ReportLineView::Timed {
                category: category@,
                count,
                total,
                max,
            },
        }
    }
}

impl ReportLineView {
    /// The category that the line is about.
    pub open spec fn name(self) -> Seq<char> {
        match self {
            ReportLineView::Counted { category, .. } => category,
            ReportLineView::Timed { category, .. } => category,
        }
    }
}

/// The line for one category: its timings too, where any time was recorded.
pub open spec fn line_of(category: Seq<char>, stats: CategoryStats) -> ReportLineView {
    if stats.total == 0 {
        ReportLineView::Counted { category, count: stats.count }
    } else {
        ReportLineView::Timed { category, count: stats.count, total: stats.total, max: stats.max }
    }
}

/// Whether `lines` report `stats`: one line for each category and none besides, in the order of
/// the names.
pub open spec fn reports(
    lines: Seq<ReportLine>,
    stats: Map<Seq<char>, CategoryStats>,
) -> bool {
    &&& forall|i: int, j: int|
        0 <= i < j < lines.len() ==> text_before(
            (#[trigger] lines[i])@.name(),
            (#[trigger] lines[j])@.name(),
        )
    &&& forall|i: int|
        0 <= i < lines.len() ==> stats.dom().contains((#[trigger] lines[i])@.name()) && lines[i]@
            == line_of(lines[i]@.name(), stats[lines[i]@.name()])
    &&& forall|c: Seq<char>| #[trigger]
        stats.dom().contains(c) ==> exists|i: int|
            0 <= i < lines.len() && (#[trigger] lines[i])@.name() == c
}

/// Whether `slot` and `report` are what comes of the accumulated `state` at `now`: a report and
/// nothing accumulated, once the interval has gone by since the last report; until then no report,
/// and `state` is kept.
pub open spec fn accumulated(
    state: ProbeView,
    now: u128,
    slot: Option<Probe>,
    report: Option<Report>,
) -> bool {
    let interval = time_between(state.last_flush, now);
    &&& slot is Some
    &&& if interval >= FLUSH_INTERVAL {
        &&& report is Some
        &&& report->0.interval == interval
        &&& reports(report->0.lines@, state.stats)
        &&& slot->0@ == (ProbeView { last_flush: now, stats: Map::empty() })
    } else {
        &&& report is None
        &&& slot->0@ == state
    }
}

/// Whether the probe is switched on by `value`, the setting as it was found: set, not empty and
/// not `0`.
pub fn enabled(value: Option<&str>) -> (on: bool)
    ensures
        on == (value is Some && value->0@ != "0"@ && value->0@.len() > 0),
{
    match value {
        Some(value) => !same_text(value, "0") && !value.is_empty(),
        None => false,
    }
}

impl Probe {
    /// A probe in which nothing was recorded.
    fn open(now: u128) -> (probe: Self)
        ensures
            probe.wf(),
            probe@ == (ProbeView { last_flush: now, stats: Map::empty() }),
    {
        let probe = Probe { last_flush: now, entries: Vec::new() };
        assert(stats_by_category(probe.entries@) =~= Map::empty());
        probe
    }

    /// Where the entry of `category` is (`true`), or where it is to be put (`false`).
    fn find(&self, category: &str) -> (found: (usize, bool))
        requires
            self.wf(),
        ensures
            found.0 <= self.entries@.len(),
            found.1 ==> entry_at(self.entries@, category@, found.0 as int),
            !found.1 ==> {
                &&& !has_entry(self.entries@, category@)
                &&& forall|k: int|
                    0 <= k < found.0 ==> text_before((#[trigger] self.entries@[k]).category@, category@)
                &&& forall|k: int|
                    found.0 <= k < self.entries@.len() ==> text_before(
                        category@,
                        (#[trigger] self.entries@[k]).category@,
                    )
            },
    {
        let mut ix: usize = 0;
        while ix < self.entries.len()
            invariant
                self.wf(),
                ix <= self.entries@.len(),
                forall|k: int|
                    0 <= k < ix ==> text_before((#[trigger] self.entries@[k]).category@, category@),
            decreases self.entries@.len() - ix,
        {
            match text_order(category, self.entries[ix].category) {
                TextOrder::Same => {
                    return (ix, true);
                },
                TextOrder::Before => {
                    proof {
                        self.lemma_absent(category@, ix as int);
                    }
                    return (ix, false);
                },
                TextOrder::After => {},
            }
            ix = ix + 1;
        }
        proof {
            self.lemma_absent(category@, ix as int);
        }
        (ix, false)
    }

    proof fn lemma_absent(&self, category: Seq<char>, ix: int)
        requires
            self.wf(),
            0 <= ix <= self.entries@.len(),
            forall|k: int|
                0 <= k < ix ==> text_before((#[trigger] self.entries@[k]).category@, category),
            ix < self.entries@.len() ==> text_before(category, self.entries@[ix].category@),
        ensures
            !has_entry(self.entries@, category),
            forall|k: int|
                ix <= k < self.entries@.len() ==> text_before(
                    category,
                    (#[trigger] self.entries@[k]).category@,
                ),
    {
        assert forall|k: int| ix <= k < self.entries@.len() implies text_before(
            category,
            (#[trigger] self.entries@[k]).category@,
        ) by {
            if ix < k {
                lemma_text_before_transitive(
                    category,
                    self.entries@[ix].category@,
                    self.entries@[k].category@,
                );
            }
        }
        lemma_text_before_irreflexive(category);
        assert forall|k: int| !entry_at(self.entries@, category, k) by {
            if 0 <= k < self.entries@.len() {
                let _ = self.entries@[k].category@;
            }
        }
    }

    /// What was recorded of `category` since the last report.
    pub fn stats(&self, category: &str) -> (stats: CategoryStats)
        requires
            self.wf(),
        ensures
            stats == self@.of(category@),
    {
        let (ix, found) = self.find(category);
        if found {
            proof {
                lemma_entry(self.entries@, ix as int);
            }
            self.entries[ix].stats
        } else {
            CategoryStats { count: 0, total: 0, max: 0 }
        }
    }
}

proof fn lemma_entry(entries: Seq<CategoryEntry>, ix: int)
    requires
        in_order(entries),
        0 <= ix < entries.len(),
    ensures
        stats_by_category(entries).dom().contains(entries[ix].category@),
        stats_by_category(entries)[entries[ix].category@] == entries[ix].stats,
{
    let category = entries[ix].category@;
    assert(entry_at(entries, category, ix));
    let k = choose|k: int| entry_at(entries, category, k);
    lemma_text_before_irreflexive(category);
    if k < ix {
        assert(text_before(entries[k].category@, entries[ix].category@));
    } else if ix < k {
        assert(text_before(entries[ix].category@, entries[k].category@));
    }
}

proof fn lemma_replaced(entries: Seq<CategoryEntry>, ix: int, stats: CategoryStats)
    requires
        in_order(entries),
        0 <= ix < entries.len(),
    ensures
        in_order(entries.update(ix, CategoryEntry { category: entries[ix].category, stats })),
        stats_by_category(entries.update(ix, CategoryEntry { category: entries[ix].category, stats }))
            == stats_by_category(entries).insert(entries[ix].category@, stats),
{
    let category = entries[ix].category@;
    let after = entries.update(ix, CategoryEntry { category: entries[ix].category, stats });
    assert forall|i: int, j: int| 0 <= i < j < after.len() implies text_before(
        (#[trigger] after[i]).category@,
        (#[trigger] after[j]).category@,
    ) by {
        assert(text_before(entries[i].category@, entries[j].category@));
    }
    lemma_entry(after, ix);
    assert forall|c: Seq<char>| has_entry(after, c) == has_entry(entries, c) by {
        if has_entry(after, c) {
            assert(entry_at(entries, c, choose|k: int| entry_at(after, c, k)));
        }
        if has_entry(entries, c) {
            assert(entry_at(after, c, choose|k: int| entry_at(entries, c, k)));
        }
    }
    assert(has_entry(entries, category)) by {
        assert(entry_at(entries, category, ix));
    }
    assert forall|c: Seq<char>| has_entry(entries, c) && c != category implies entry_of(after, c)
        == entry_of(entries, c) by {
        let k = choose|k: int| entry_at(entries, c, k);
        lemma_entry(entries, k);
        lemma_entry(after, k);
    }
    assert(stats_by_category(after) =~= stats_by_category(entries).insert(category, stats));
}

proof fn lemma_inserted(entries: Seq<CategoryEntry>, ix: int, entry: CategoryEntry)
    requires
        in_order(entries),
        0 <= ix <= entries.len(),
        !has_entry(entries, entry.category@),
        forall|k: int|
            0 <= k < ix ==> text_before((#[trigger] entries[k]).category@, entry.category@),
        forall|k: int|
            ix <= k < entries.len() ==> text_before(
                entry.category@,
                (#[trigger] entries[k]).category@,
            ),
    ensures
        in_order(entries.insert(ix, entry)),
        stats_by_category(entries.insert(ix, entry)) == stats_by_category(entries).insert(
            entry.category@,
            entry.stats,
        ),
{
    let after = entries.insert(ix, entry);
    let category = entry.category@;
    assert forall|i: int, j: int| 0 <= i < j < after.len() implies text_before(
        (#[trigger] after[i]).category@,
        (#[trigger] after[j]).category@,
    ) by {
        let i0 = if i < ix { i } else { i - 1 };
        let j0 = if j < ix { j } else { j - 1 };
        if i != ix && j != ix {
            assert(text_before(entries[i0].category@, entries[j0].category@));
        } else if i != ix {
            assert(text_before(entries[i0].category@, category));
        } else {
            assert(text_before(category, entries[j0].category@));
        }
    }
    lemma_entry(after, ix);
    assert forall|c: Seq<char>| c != category implies has_entry(after, c) == has_entry(entries, c)
        && (has_entry(entries, c) ==> entry_of(after, c) == entry_of(entries, c)) by {
        if has_entry(after, c) {
            let k = choose|k: int| entry_at(after, c, k);
            assert(entry_at(entries, c, if k < ix { k } else { k - 1 }));
        }
        if has_entry(entries, c) {
            let k = choose|k: int| entry_at(entries, c, k);
            let k1 = if k < ix { k } else { k + 1 };
            assert(after[k1] == entries[k]);
            assert(entry_at(after, c, k1));
            lemma_entry(entries, k);
            lemma_entry(after, k1);
        }
    }
    assert(stats_by_category(after) =~= stats_by_category(entries).insert(category, entry.stats));
}

impl Probe {
    /// Adds one occurrence of `category`.
    fn add_occurrence(&mut self, category: &'static str, elapsed: Option<u128>)
        requires
            old(self).wf(),
            one_more_fits(old(self)@.of(category@), elapsed),
        ensures
            final(self).wf(),
            final(self)@ == recorded(old(self)@, category@, elapsed),
    {
        let before = self.stats(category);
        let taken: u128 = match elapsed {
            Some(elapsed) => elapsed,
            None => 0,
        };
        let stats = CategoryStats {
            count: before.count + 1,
            total: before.total + taken,
            max: if before.max < taken {
                taken
            } else {
                before.max
            },
        };
        let (ix, found) = self.find(category);
        let ghost entries = self.entries@;
        if found {
            self.entries[ix].stats = stats;
            proof {
                lemma_replaced(entries, ix as int, stats);
                assert(self.entries@ =~= entries.update(
                    ix as int,
                    CategoryEntry { category: entries[ix as int].category, stats },
                ));
            }
        } else {
            self.entries.insert(ix, CategoryEntry { category, stats });
            proof {
                lemma_inserted(entries, ix as int, CategoryEntry { category, stats });
            }
        }
    }
}

/// Hands out what has accumulated, and starts to accumulate anew.
pub fn flush(probe: &mut Probe, interval: u128) -> (report: Report)
    requires
        old(probe).wf(),
    ensures
        final(probe).wf(),
        final(probe)@ == (ProbeView { last_flush: old(probe)@.last_flush, stats: Map::empty() }),
        report.interval == interval,
        reports(report.lines@, old(probe)@.stats),
{
    let mut lines: Vec<ReportLine> = Vec::new();
    let ghost entries = probe.entries@;
    let mut ix: usize = 0;
    while ix < probe.entries.len()
        invariant
            probe == old(probe),
            entries == probe.entries@,
            in_order(entries),
            ix <= entries.len(),
            lines@.len() == ix,
            forall|k: int|
                0 <= k < ix ==> (#[trigger] lines@[k])@ == line_of(
                    entries[k].category@,
                    entries[k].stats,
                ),
        decreases entries.len() - ix,
    {
        let entry = probe.entries[ix];
        let line = if entry.stats.total == 0 {
            ReportLine::Counted { category: entry.category, count: entry.stats.count }
        } else {
            ReportLine::Timed {
                category: entry.category,
                count: entry.stats.count,
                total: entry.stats.total,
                max: entry.stats.max,
            }
        };
        lines.push(line);
        ix = ix + 1;
    }
    probe.entries.clear();
    proof {
        assert(stats_by_category(probe.entries@) =~= Map::empty());
        let stats = stats_by_category(entries);
        assert forall|i: int, j: int| 0 <= i < j < lines@.len() implies text_before(
            (#[trigger] lines@[i])@.name(),
            (#[trigger] lines@[j])@.name(),
        ) by {
            assert(text_before(entries[i].category@, entries[j].category@));
        }
        assert forall|i: int| 0 <= i < lines@.len() implies stats.dom().contains(
            (#[trigger] lines@[i])@.name(),
        ) && lines@[i]@ == line_of(lines@[i]@.name(), stats[lines@[i]@.name()]) by {
            lemma_entry(entries, i);
        }
        assert forall|c: Seq<char>| #[trigger] stats.dom().contains(c) implies exists|i: int|
            0 <= i < lines@.len() && (#[trigger] lines@[i])@.name() == c by {
            let k = choose|k: int| entry_at(entries, c, k);
            assert(lines@[k]@.name() == c);
        }
    }
    Report { interval, lines }
}

/// Whether [`record`] can add this occurrence: the count and the total time of the category stay
/// in range.
pub fn can_record(slot: &Option<Probe>, category: &str, elapsed: Option<u128>) -> (fits: bool)
    requires
        slot_wf(*slot),
    ensures
        fits == one_more_fits(probe_state(*slot, 0).of(category@), elapsed),
{
    let stats = match slot {
        Some(probe) => probe.stats(category),
        None => CategoryStats { count: 0, total: 0, max: 0 },
    };
    let taken: u128 = match elapsed {
        Some(elapsed) => elapsed,
        None => 0,
    };
    stats.count < u64::MAX && stats.total <= MAX_DURATION && taken <= MAX_DURATION - stats.total
}

/// Record one occurrence of `category`, optionally with the time it took. No-op unless `enabled`.
///
/// `slot` holds the probe, which is opened at the first occurrence; `opened` is the clock before
/// the occurrence is added and `now` the clock after it. Once a second has gone by since the last
/// report the next one comes back.
pub fn record(
    slot: &mut Option<Probe>,
    enabled: bool,
    category: &'static str,
    elapsed: Option<u128>,
    opened: u128,
    now: u128,
) -> (report: Option<Report>)
    requires
        slot_wf(*old(slot)),
        enabled ==> one_more_fits(probe_state(*old(slot), opened).of(category@), elapsed),
    ensures
        slot_wf(*final(slot)),
        !enabled ==> *final(slot) == *old(slot) && report is None,
        enabled ==> accumulated(
            recorded(probe_state(*old(slot), opened), category@, elapsed),
            now,
            *final(slot),
            report,
        ),
{
    if !enabled {
        return None;
    }
    let mut probe = match slot.take() {
        Some(probe) => probe,
        None => Probe::open(opened),
    };
    probe.add_occurrence(category, elapsed);

    let interval: u128 = if probe.last_flush <= now {
        now - probe.last_flush
    } else {
        0
    };
    let report = if interval >= FLUSH_INTERVAL {
        let report = flush(&mut probe, interval);
        probe.last_flush = now;
        Some(report)
    } else {
        None
    };
    *slot = Some(probe);
    report
}

/// Count one occurrence of `category` without timing it.
pub fn count(
    slot: &mut Option<Probe>,
    enabled: bool,
    category: &'static str,
    opened: u128,
    now: u128,
) -> (report: Option<Report>)
    requires
        slot_wf(*old(slot)),
        enabled ==> one_more_fits(probe_state(*old(slot), opened).of(category@), None),
    ensures
        slot_wf(*final(slot)),
        !enabled ==> *final(slot) == *old(slot) && report is None,
        enabled ==> accumulated(
            recorded(probe_state(*old(slot), opened), category@, None),
            now,
            *final(slot),
            report,
        ),
{
    record(slot, enabled, category, None, opened, now)
}

/// Starts to time `category`. Returns `None` (and does nothing) unless `enabled`.
pub fn time(enabled: bool, category: &'static str, now: u128) -> (timing: Option<Timing>)
    ensures
        timing is Some <==> enabled,
        enabled ==> timing->0.category() == category@ && timing->0.start() == now,
{
    if enabled {
        Some(Timing { category, start: now })
    } else {
        None
    }
}

impl Timing {
    /// The category that is timed.
    pub closed spec fn category(&self) -> Seq<char> {
        self.category@
    }

    /// The clock when the measurement began.
    pub closed spec fn start(&self) -> u128 {
        self.start
    }

    /// Ends the measurement at `stopped` and records its length into its category.
    pub fn finish(
        self,
        slot: &mut Option<Probe>,
        enabled: bool,
        stopped: u128,
        opened: u128,
        now: u128,
    ) -> (report: Option<Report>)
        requires
            slot_wf(*old(slot)),
            enabled ==> one_more_fits(
                probe_state(*old(slot), opened).of(self.category()),
                Some(time_between(self.start(), stopped)),
            ),
        ensures
            slot_wf(*final(slot)),
            !enabled ==> *final(slot) == *old(slot) && report is None,
            enabled ==> accumulated(
                recorded(
                    probe_state(*old(slot), opened),
                    self.category(),
                    Some(time_between(self.start(), stopped)),
                ),
                now,
                *final(slot),
                report,
            ),
    {
        let elapsed = self.elapsed(stopped);
        record(slot, enabled, self.category, Some(elapsed), opened, now)
    }

    /// How long the measurement has run at `now`.
    pub fn elapsed(&self, now: u128) -> (elapsed: u128)
        ensures
            elapsed == time_between(self.start(), now),
    {
        if self.start <= now {
            now - self.start
        } else {
            0
        }
    }

    /// Whether [`finish`](Self::finish) can add the measurement.
    pub fn can_finish(&self, slot: &Option<Probe>, stopped: u128) -> (fits: bool)
        requires
            slot_wf(*slot),
        ensures
            fits == one_more_fits(
                probe_state(*slot, 0).of(self.category()),
                Some(time_between(self.start(), stopped)),
            ),
    {
        can_record(slot, self.category, Some(self.elapsed(stopped)))
    }
}

} // verus!
