use vstd::prelude::*;

use crate::ledger::{
    actions_of, outcomes_match, records_wf, reconstruct_trades, replay, replay_trades, DecisionAction,
    DecisionRecord, PositionKey, PositionEntry, TradeOutcome,
};
use crate::performance::{
    analysis_matches, analyze, outcomes_bounded, PerformanceAnalysis, MAX_TRADES,
};
use crate::ledger::MAX_PNL;
use crate::text::{decimal, decimal_of};

verus! {

/// Milliseconds in one day.
pub const DAY_MS: u64 = 86_400_000;

/// Directory used when none is given.
pub open spec fn default_log_dir() -> Seq<char> {
    seq!['d', 'e', 'c', 'i', 's', 'i', 'o', 'n', '_', 'l', 'o', 'g', 's']
}

/// What `chrono` writes for the UTC time `ms` (epoch milliseconds) with the
/// format `%Y%m%d_%H%M%S`.
pub uninterp spec fn utc_label_of(ms: int) -> Seq<char>;

/// Last millisecond of the year 9999, in epoch milliseconds.
pub const LAST_LABEL_MS: i64 = 253_402_300_799_999;

/// Relies on `chrono::DateTime::from_timestamp_millis`, `None` only about
/// 262 000 years from the epoch, so never from the epoch to the end of 9999, and
/// on its `format("%Y%m%d_%H%M%S")`, which never fails for a UTC time and
/// depends on the instant alone.
#[verifier::external_body]
fn utc_label(ms: i64) -> (r: Option<String>)
    ensures
        r matches Some(l) ==> l@ == utc_label_of(ms as int),
        0 <= ms <= LAST_LABEL_MS ==> r is Some,
{
    match chrono::DateTime::from_timestamp_millis(ms) {
        Some(t) => Some(t.format("%Y%m%d_%H%M%S").to_string()),
        None => None,
    }
}

/// Name of the file of cycle `cycle` logged at UTC label `label`.
pub open spec fn record_file_name(label: Seq<char>, cycle: nat) -> Seq<char> {
    "decision_"@ + label + "_cycle"@ + decimal_of(cycle) + ".json"@
}

/// `a` and `b` agree on every field but the cycle number and the timestamp.
pub open spec fn same_except_stamp(a: DecisionRecord, b: DecisionRecord) -> bool {
    &&& a.system_prompt == b.system_prompt
    &&& a.input_prompt == b.input_prompt
    &&& a.cot_trace == b.cot_trace
    &&& a.decision_json == b.decision_json
    &&& a.account_state == b.account_state
    &&& a.positions == b.positions
    &&& a.candidate_coins == b.candidate_coins
    &&& a.decisions == b.decisions
    &&& a.execution_log == b.execution_log
    &&& a.success == b.success
    &&& a.error_message == b.error_message
}

/// Append-only log of decision records, one file per cycle.
#[derive(Debug)]
pub struct DecisionLogger {
    pub log_dir: String,
    pub cycle_number: i32,
}

impl DecisionLogger {
    /// A logger writing under `log_dir` (`decision_logs` when empty), at cycle 0.
    pub fn new(log_dir: &str) -> (r: DecisionLogger)
        ensures
            r.log_dir@ == (if log_dir@.len() == 0 {
                default_log_dir()
            } else {
                log_dir@
            }),
            r.cycle_number == 0,
    {
        let dir = if log_dir.unicode_len() == 0 {
            let d = "decision_logs";
            proof {
                reveal_strlit("decision_logs");
                assert(d@ =~= default_log_dir());
            }
            String::from_str(d)
        } else {
            String::from_str(log_dir)
        };
        DecisionLogger { log_dir: dir, cycle_number: 0 }
    }

    /// Assigns the next cycle number and the time `now_ms` to `record` and
    /// returns the name of its file, `decision_<UTC label>_cycle<N>.json`.
    /// Succeeds for any time from the epoch to the end of the year 9999; may
    /// return `None`, changing nothing, only outside that span.
    pub fn log_decision(&mut self, record: &mut DecisionRecord, now_ms: i64) -> (r: Option<String>)
        requires
            0 <= old(self).cycle_number < i32::MAX,
        ensures
            0 <= now_ms <= LAST_LABEL_MS ==> r is Some,
            r is None ==> *final(self) == *old(self) && *final(record) == *old(record),
            r matches Some(name) ==> {
                &&& final(self).cycle_number == old(self).cycle_number + 1
                &&& final(self).log_dir == old(self).log_dir
                &&& final(record).cycle_number == final(self).cycle_number
                &&& final(record).timestamp == now_ms
                &&& same_except_stamp(*final(record), *old(record))
                &&& name@ == record_file_name(utc_label_of(now_ms as int), final(self).cycle_number as nat)
            },
    {
        let label = match utc_label(now_ms) {
            Some(l) => l,
            None => return None,
        };
        self.cycle_number = self.cycle_number + 1;
        record.cycle_number = self.cycle_number;
        record.timestamp = now_ms;
        let prefix = "decision_";
        let middle = "_cycle";
        let suffix = ".json";
        let mut name = String::from_str(prefix);
        name.append(label.as_str());
        name.append(middle);
        let digits = decimal(self.cycle_number as u128);
        name.append(digits.as_str());
        name.append(suffix);
        Some(name)
    }

    /// Pattern matching every file logged at the UTC label of `ms`; found for any
    /// time from the epoch to the end of the year 9999.
    pub fn record_pattern(&self, ms: i64) -> (r: Option<String>)
        ensures
            0 <= ms <= LAST_LABEL_MS ==> r is Some,
            r matches Some(p) ==> p@ == self.log_dir@ + "/decision_"@ + utc_label_of(ms as int) + "_*.json"@,
    {
        let label = match utc_label(ms) {
            Some(l) => l,
            None => return None,
        };
        let mut p = String::from_str(self.log_dir.as_str());
        p.append("/decision_");
        p.append(label.as_str());
        p.append("_*.json");
        Some(p)
    }
}

/// Index of the first of the `n` latest of `total` records in file-name order.
pub fn latest_start(total: usize, n: usize) -> (r: usize)
    ensures
        r == (if total > n {
            total - n
        } else {
            0
        }),
{
    if total > n {
        total - n
    } else {
        0
    }
}

/// A record file last modified at `modified_ms` is older than `days` days at
/// time `now_ms`; a cutoff before the epoch is the epoch.
pub fn is_expired(modified_ms: i64, now_ms: i64, days: u64) -> (r: bool)
    ensures
        r == (modified_ms < (if now_ms - (days as int) * (DAY_MS as int) >= 0 {
            now_ms - (days as int) * (DAY_MS as int)
        } else {
            0
        })),
{
    let span: i128 = days as i128 * DAY_MS as i128;
    let cutoff: i128 = if now_ms as i128 - span >= 0 {
        now_ms as i128 - span
    } else {
        0
    };
    (modified_ms as i128) < cutoff
}

/// Number of successful open actions.
pub open spec fn count_opens(s: Seq<DecisionAction>) -> nat
    decreases s.len(),
{
    if s.len() == 0 {
        0
    } else {
        count_opens(s.drop_last()) + if s.last().success && s.last().action.is_open_spec() {
            1nat
        } else {
            0nat
        }
    }
}

/// Number of successful close actions.
pub open spec fn count_closes(s: Seq<DecisionAction>) -> nat
    decreases s.len(),
{
    if s.len() == 0 {
        0
    } else {
        count_closes(s.drop_last()) + if s.last().success && !s.last().action.is_open_spec() {
            1nat
        } else {
            0nat
        }
    }
}

/// Number of successful cycles.
pub open spec fn count_successful(recs: Seq<DecisionRecord>) -> nat
    decreases recs.len(),
{
    if recs.len() == 0 {
        0
    } else {
        count_successful(recs.drop_last()) + if recs.last().success {
            1nat
        } else {
            0nat
        }
    }
}

/// Counts over the logged cycles.
#[derive(Clone, Copy, Debug, Default, PartialEq, Eq)]
pub struct Statistics {
    pub total_cycles: usize,
    pub successful_cycles: usize,
    pub failed_cycles: usize,
    pub total_open_positions: u128,
    pub total_close_positions: u128,
}

proof fn lemma_counts_concat(a: Seq<DecisionAction>, b: Seq<DecisionAction>)
    ensures
        count_opens(a + b) == count_opens(a) + count_opens(b),
        count_closes(a + b) == count_closes(a) + count_closes(b),
    decreases b.len(),
{
    if b.len() > 0 {
        assert((a + b).drop_last() =~= a + b.drop_last());
        assert((a + b).last() == b.last());
        lemma_counts_concat(a, b.drop_last());
    }
}

/// Successful open and close actions among `decisions`.
fn count_actions(decisions: &Vec<DecisionAction>) -> (r: (usize, usize))
    ensures
        r.0 == count_opens(decisions@),
        r.1 == count_closes(decisions@),
{
    let mut opens: usize = 0;
    let mut closes: usize = 0;
    let mut j: usize = 0;
    while j < decisions.len()
        invariant
            j <= decisions@.len(),
            opens == count_opens(decisions@.take(j as int)),
            closes == count_closes(decisions@.take(j as int)),
            opens + closes <= j,
        decreases decisions@.len() - j,
    {
        assert(decisions@.take(j as int + 1).drop_last() =~= decisions@.take(j as int));
        let a = &decisions[j];
        if a.success {
            if a.action.is_open() {
                opens = opens + 1;
            } else {
                closes = closes + 1;
            }
        }
        j = j + 1;
    }
    assert(decisions@.take(decisions@.len() as int) =~= decisions@);
    (opens, closes)
}

/// Counts cycles, successful and failed cycles, and successful open and close actions.
pub fn get_statistics(records: &[DecisionRecord]) -> (r: Statistics)
    ensures
        r.total_cycles == records@.len(),
        r.successful_cycles == count_successful(records@),
        r.failed_cycles == records@.len() - count_successful(records@),
        r.total_open_positions == count_opens(actions_of(records@)),
        r.total_close_positions == count_closes(actions_of(records@)),
{
    let ghost recs = records@;
    let mut ok: usize = 0;
    let mut opens: u128 = 0;
    let mut closes: u128 = 0;
    let mut r: usize = 0;
    while r < records.len()
        invariant
            r <= recs.len(),
            records@ == recs,
            ok == count_successful(recs.take(r as int)),
            ok <= r,
            opens == count_opens(actions_of(recs.take(r as int))),
            closes == count_closes(actions_of(recs.take(r as int))),
            opens <= r * 18_446_744_073_709_551_615,
            closes <= r * 18_446_744_073_709_551_615,
        decreases recs.len() - r,
    {
        let (o, c) = count_actions(&records[r].decisions);
        proof {
            let t = recs.take(r as int + 1);
            assert(t.drop_last() =~= recs.take(r as int));
            assert(t.last() == recs[r as int]);
            lemma_counts_concat(actions_of(recs.take(r as int)), recs[r as int].decisions@);
        }
        opens = opens + o as u128;
        closes = closes + c as u128;
        if records[r].success {
            ok = ok + 1;
        }
        r = r + 1;
    }
    assert(recs.take(recs.len() as int) =~= recs);
    Statistics {
        total_cycles: records.len(),
        successful_cycles: ok,
        failed_cycles: records.len() - ok,
        total_open_positions: opens,
        total_close_positions: closes,
    }
}

/// Open positions that priming leaves. `history` ends with the records of
/// `window`; only the records before them are replayed, so that a position
/// opened before the window is still open when the window closes it. None when
/// `history` is no longer than `window`.
pub open spec fn primed_positions(history: Seq<DecisionRecord>, window: Seq<DecisionRecord>) -> Map<
    PositionKey,
    PositionEntry,
> {
    if history.len() > window.len() {
        replay(Map::empty(), actions_of(history.take(history.len() - window.len())))
    } else {
        Map::empty()
    }
}

/// Checks that the outcomes are within the bounds of `analyze`.
fn within_bounds(outcomes: &Vec<TradeOutcome>) -> (r: bool)
    ensures
        r == outcomes_bounded(outcomes@),
{
    if outcomes.len() > MAX_TRADES {
        return false;
    }
    let mut i: usize = 0;
    while i < outcomes.len()
        invariant
            i <= outcomes@.len() <= MAX_TRADES,
            forall|j: int| 0 <= j < i ==> -MAX_PNL <= (#[trigger] outcomes@[j]).pn_l <= MAX_PNL,
        decreases outcomes@.len() - i,
    {
        let o = &outcomes[i];
        if o.pn_l < -MAX_PNL || o.pn_l > MAX_PNL {
            return false;
        }
        i = i + 1;
    }
    true
}

/// Performance over the trades completed in `window`, the latest records, after
/// priming the open positions with the records of `history`, a longer run of
/// records ending with the same ones, that come before the window (priming
/// happens only when `history` is longer). `None` only when there are more than
/// `MAX_TRADES` trades.
pub fn analyze_records(history: &[DecisionRecord], window: &[DecisionRecord]) -> (r: Option<PerformanceAnalysis>)
    requires
        records_wf(history@),
        records_wf(window@),
    ensures
        ({
            let trades = replay_trades(primed_positions(history@, window@), actions_of(window@));
            match r {
                Some(a) => outcomes_match(a.recent_trades@, trades) && outcomes_bounded(a.recent_trades@)
                    && analysis_matches(a.recent_trades@, a),
                None => exists|os: Seq<TradeOutcome>| outcomes_match(os, trades) && !outcomes_bounded(os),
            }
        }),
{
    let empty: Vec<DecisionRecord> = Vec::new();
    let outcomes = if history.len() > window.len() {
        let earlier = vstd::slice::slice_subrange(history, 0, history.len() - window.len());
        assert(earlier@ =~= history@.take(history@.len() - window@.len()));
        assert(records_wf(earlier@)) by {
            assert forall|i: int| 0 <= i < earlier@.len() implies crate::ledger::actions_wf((#[trigger] earlier@[i]).decisions@) by {
                assert(earlier@[i] == history@[i]);
            }
        }
        reconstruct_trades(earlier, window)
    } else {
        assert(actions_of(empty@) =~= Seq::<DecisionAction>::empty());
        reconstruct_trades(empty.as_slice(), window)
    };
    if !within_bounds(&outcomes) {
        return None;
    }
    Some(analyze(outcomes))
}

} // verus!
