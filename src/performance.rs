use vstd::prelude::*;

use crate::indicators::tdiv;
use crate::ledger::{TradeOutcome, MAX_PNL};
use crate::types::SCALE;

verus! {

/// Largest number of trade outcomes analyzed at once.
pub const MAX_TRADES: usize = 100_000_000;

/// Largest number of outcomes over which the Sharpe ratio is computed.
pub const SHARPE_MAX_TRADES: usize = 1_000_000;

/// Largest magnitude of a profit percentage that the Sharpe ratio takes in,
/// fixed-point (100 000 %).
pub const MAX_PNL_PCT: i128 = 10_000_000_000_000;

/// Square of `MAX_PNL_PCT`.
pub const MAX_PNL_PCT_SQ: i128 = 100_000_000_000_000_000_000_000_000;

/// Number of winning trades (profit above 0).
pub open spec fn count_wins(s: Seq<TradeOutcome>) -> nat
    decreases s.len(),
{
    if s.len() == 0 {
        0
    } else {
        count_wins(s.drop_last()) + if s.last().pn_l > 0 {
            1nat
        } else {
            0nat
        }
    }
}

/// Total profit of the winning trades.
pub open spec fn sum_wins(s: Seq<TradeOutcome>) -> int
    decreases s.len(),
{
    if s.len() == 0 {
        0
    } else {
        sum_wins(s.drop_last()) + if s.last().pn_l > 0 {
            s.last().pn_l as int
        } else {
            0
        }
    }
}

/// Total profit of the losing trades (profit at most 0), itself at most 0.
pub open spec fn sum_losses(s: Seq<TradeOutcome>) -> int
    decreases s.len(),
{
    if s.len() == 0 {
        0
    } else {
        sum_losses(s.drop_last()) + if s.last().pn_l > 0 {
            0
        } else {
            s.last().pn_l as int
        }
    }
}

/// Number of trades of `sym`.
pub open spec fn sym_count(s: Seq<TradeOutcome>, sym: Seq<char>) -> nat
    decreases s.len(),
{
    if s.len() == 0 {
        0
    } else {
        sym_count(s.drop_last(), sym) + if s.last().symbol@ == sym {
            1nat
        } else {
            0nat
        }
    }
}

/// Number of winning trades of `sym`.
pub open spec fn sym_wins(s: Seq<TradeOutcome>, sym: Seq<char>) -> nat
    decreases s.len(),
{
    if s.len() == 0 {
        0
    } else {
        sym_wins(s.drop_last(), sym) + if s.last().symbol@ == sym && s.last().pn_l > 0 {
            1nat
        } else {
            0nat
        }
    }
}

/// Total profit of the trades of `sym`.
pub open spec fn sym_pnl(s: Seq<TradeOutcome>, sym: Seq<char>) -> int
    decreases s.len(),
{
    if s.len() == 0 {
        0
    } else {
        sym_pnl(s.drop_last(), sym) + if s.last().symbol@ == sym {
            s.last().pn_l as int
        } else {
            0
        }
    }
}

/// Symbols of the trades, each once, in order of first appearance.
pub open spec fn distinct_symbols(s: Seq<TradeOutcome>) -> Seq<Seq<char>>
    decreases s.len(),
{
    if s.len() == 0 {
        Seq::empty()
    } else {
        let d = distinct_symbols(s.drop_last());
        if d.contains(s.last().symbol@) {
            d
        } else {
            d.push(s.last().symbol@)
        }
    }
}

/// `num / den` as a fixed-point fraction, 0 when `den` is 0.
pub open spec fn rate(num: int, den: int) -> int {
    if den == 0 {
        0
    } else {
        num * SCALE / den
    }
}

/// Arithmetic mean rounded toward zero, 0 for no values.
pub open spec fn mean(sum: int, n: int) -> int {
    if n == 0 {
        0
    } else {
        tdiv(sum, n)
    }
}

/// Gross profit over gross loss, fixed-point; 0 when nothing was lost.
pub open spec fn profit_factor(wins: int, losses: int) -> int {
    if losses == 0 {
        0
    } else {
        tdiv(wins * SCALE, -losses)
    }
}

/// `a` comes strictly before `b` in name order, comparing from position `i`.
pub open spec fn name_lt_from(a: Seq<char>, b: Seq<char>, i: int) -> bool
    decreases b.len() - i,
{
    if i < 0 || i >= b.len() {
        false
    } else if i >= a.len() {
        true
    } else if a[i] != b[i] {
        a[i] < b[i]
    } else {
        name_lt_from(a, b, i + 1)
    }
}

/// `a` comes strictly before `b` in name order.
pub open spec fn name_lt(a: Seq<char>, b: Seq<char>) -> bool {
    name_lt_from(a, b, 0)
}

/// Per-symbol statistics.
#[derive(Debug)]
pub struct SymbolPerformance {
    pub symbol: String,
    pub total_trades: usize,
    pub winning_trades: usize,
    pub losing_trades: usize,
    pub win_rate: i128,
    pub total_pn_l: i128,
    pub avg_pn_l: i128,
}

/// `p` holds the statistics of the trades of `sym` in `s`.
pub open spec fn symbol_perf_matches(p: SymbolPerformance, s: Seq<TradeOutcome>, sym: Seq<char>) -> bool {
    &&& p.symbol@ == sym
    &&& p.total_trades == sym_count(s, sym)
    &&& p.winning_trades == sym_wins(s, sym)
    &&& p.losing_trades == sym_count(s, sym) - sym_wins(s, sym)
    &&& p.win_rate == rate(sym_wins(s, sym) as int, sym_count(s, sym) as int)
    &&& p.total_pn_l == sym_pnl(s, sym)
    &&& p.avg_pn_l == mean(sym_pnl(s, sym), sym_count(s, sym) as int)
}

/// `c` ranks above `b` as best symbol: more total profit, or as much and an earlier name.
pub open spec fn ranks_above_best(s: Seq<TradeOutcome>, c: Seq<char>, b: Seq<char>) -> bool {
    sym_pnl(s, c) > sym_pnl(s, b) || (sym_pnl(s, c) == sym_pnl(s, b) && name_lt(c, b))
}

/// `c` ranks above `w` as worst symbol: less total profit, or as much and an earlier name.
pub open spec fn ranks_above_worst(s: Seq<TradeOutcome>, c: Seq<char>, w: Seq<char>) -> bool {
    sym_pnl(s, c) < sym_pnl(s, w) || (sym_pnl(s, c) == sym_pnl(s, w) && name_lt(c, w))
}

/// Aggregate statistics of a set of trade outcomes. Rates and ratios are fixed-point.
#[derive(Debug)]
pub struct PerformanceAnalysis {
    pub total_trades: usize,
    pub winning_trades: usize,
    pub losing_trades: usize,
    pub win_rate: i128,
    pub avg_win: i128,
    pub avg_loss: i128,
    pub profit_factor: i128,
    pub sharpe_ratio: i128,
    pub recent_trades: Vec<TradeOutcome>,
    pub symbol_stats: Vec<SymbolPerformance>,
    pub best_symbol: String,
    pub worst_symbol: String,
}

/// There are at most `MAX_TRADES` outcomes, each with its profit within
/// `[-MAX_PNL, MAX_PNL]`.
pub open spec fn outcomes_bounded(s: Seq<TradeOutcome>) -> bool {
    &&& s.len() <= MAX_TRADES
    &&& forall|i: int| 0 <= i < s.len() ==> -MAX_PNL <= (#[trigger] s[i]).pn_l <= MAX_PNL
}

/// Every profit percentage lies within `[-MAX_PNL_PCT, MAX_PNL_PCT]`.
pub open spec fn pcts_bounded(s: Seq<TradeOutcome>) -> bool {
    forall|i: int| 0 <= i < s.len() ==> -MAX_PNL_PCT <= (#[trigger] s[i]).pn_l_pct <= MAX_PNL_PCT
}

/// Sum of the profit percentages.
pub open spec fn sum_pct(s: Seq<TradeOutcome>) -> int
    decreases s.len(),
{
    if s.len() == 0 {
        0
    } else {
        sum_pct(s.drop_last()) + s.last().pn_l_pct
    }
}

/// Sum of the squared profit percentages.
pub open spec fn sum_sq_pct(s: Seq<TradeOutcome>) -> int
    decreases s.len(),
{
    if s.len() == 0 {
        0
    } else {
        sum_sq_pct(s.drop_last()) + s.last().pn_l_pct * s.last().pn_l_pct
    }
}

/// `r` is the square root of `v` rounded down.
pub open spec fn is_sqrt_floor(v: int, r: int) -> bool {
    0 <= r && r * r <= v && v < (r + 1) * (r + 1)
}

/// Sharpe ratio over the profit percentages: mean over population standard
/// deviation, which is `sum / sqrt(n * sum_sq - sum^2)`, with the root rounded
/// down; 0 for fewer than two outcomes or no deviation. It is also 0 beyond
/// the range where it is computed exactly: more than `SHARPE_MAX_TRADES`
/// outcomes, or a profit percentage beyond `MAX_PNL_PCT` in magnitude.
pub open spec fn sharpe_matches(s: Seq<TradeOutcome>, r: int) -> bool {
    let n = s.len() as int;
    let v = n * sum_sq_pct(s) - sum_pct(s) * sum_pct(s);
    if n < 2 || v <= 0 || n > SHARPE_MAX_TRADES || !pcts_bounded(s) {
        r == 0
    } else {
        exists|sd: int|
            is_sqrt_floor(v, sd) && r == (if sd == 0 {
                0
            } else {
                tdiv(sum_pct(s) * SCALE, sd)
            })
    }
}

proof fn lemma_name_lt_irreflexive(a: Seq<char>, i: int)
    requires
        0 <= i,
    ensures
        !name_lt_from(a, a, i),
    decreases a.len() - i,
{
    if i < a.len() {
        lemma_name_lt_irreflexive(a, i + 1);
    }
}

proof fn lemma_name_lt_transitive(a: Seq<char>, b: Seq<char>, c: Seq<char>, i: int)
    requires
        0 <= i,
        name_lt_from(a, b, i),
        name_lt_from(b, c, i),
    ensures
        name_lt_from(a, c, i),
    decreases a.len() - i,
{
    if i < a.len() && a[i] == b[i] && b[i] == c[i] {
        lemma_name_lt_transitive(a, b, c, i + 1);
    }
}

/// `a` comes strictly before `b` in name order.
fn name_before(a: &String, b: &String) -> (r: bool)
    ensures
        r == name_lt(a@, b@),
{
    let sa = a.as_str();
    let sb = b.as_str();
    let la = sa.unicode_len();
    let lb = sb.unicode_len();
    let mut i: usize = 0;
    while i < la && i < lb
        invariant
            la == a@.len(),
            lb == b@.len(),
            sa@ == a@,
            sb@ == b@,
            i <= la,
            i <= lb,
            name_lt(a@, b@) == name_lt_from(a@, b@, i as int),
        decreases la - i,
    {
        let ca = sa.get_char(i);
        let cb = sb.get_char(i);
        if ca != cb {
            return ca < cb;
        }
        i = i + 1;
    }
    i < lb
}

/// Square root of `v`, rounded down, by bisection.
fn isqrt(v: u128) -> (r: u128)
    ensures
        r * r <= v,
        v < (r + 1) * (r + 1),
{
    let mut lo: u128 = 0;
    let mut hi: u128 = 0x1_0000_0000_0000_0000;
    assert(v < hi * hi) by (nonlinear_arith)
        requires
            hi == 0x1_0000_0000_0000_0000,
            v <= 0xffff_ffff_ffff_ffff_ffff_ffff_ffff_ffff,
    ;
    while hi - lo > 1
        invariant
            lo < hi <= 0x1_0000_0000_0000_0000,
            lo * lo <= v,
            v < hi * hi,
        decreases hi - lo,
    {
        let mid = lo + (hi - lo) / 2;
        assert(mid * mid < 0x1_0000_0000_0000_0000 * 0x1_0000_0000_0000_0000) by (nonlinear_arith)
            requires
                mid < 0x1_0000_0000_0000_0000,
        ;
        if mid * mid <= v {
            lo = mid;
        } else {
            hi = mid;
        }
    }
    assert(hi == lo + 1);
    lo
}

proof fn lemma_distinct_facts(s: Seq<TradeOutcome>)
    ensures
        forall|a: int, b: int|
            0 <= a < distinct_symbols(s).len() && 0 <= b < distinct_symbols(s).len() && a != b
                ==> distinct_symbols(s)[a] != distinct_symbols(s)[b],
        forall|sym: Seq<char>|
            !(#[trigger] distinct_symbols(s).contains(sym)) ==> sym_count(s, sym) == 0 && sym_wins(s, sym) == 0
                && sym_pnl(s, sym) == 0,
        s.len() > 0 ==> distinct_symbols(s).len() > 0,
    decreases s.len(),
{
    if s.len() > 0 {
        lemma_distinct_facts(s.drop_last());
        let d = distinct_symbols(s.drop_last());
        let last = s.last().symbol@;
        if !d.contains(last) {
            assert(d.push(last)[d.len() as int] == last);
            assert(distinct_symbols(s).contains(last));
        } else {
            let k = choose|k: int| 0 <= k < d.len() && d[k] == last;
            assert(distinct_symbols(s)[k] == last);
            assert(distinct_symbols(s).contains(last));
        }
        assert forall|sym: Seq<char>| !(#[trigger] distinct_symbols(s).contains(sym)) implies sym_count(s, sym)
            == 0 && sym_wins(s, sym) == 0 && sym_pnl(s, sym) == 0 by {
            if d.contains(sym) {
                let k = choose|k: int| 0 <= k < d.len() && d[k] == sym;
                assert(distinct_symbols(s)[k] == sym);
            }
            assert(!d.contains(sym));
            assert(sym != last);
        }
    }
}

/// Index of `sym` in `names`, if it is there.
fn position_of(names: &Vec<String>, sym: &String) -> (r: Option<usize>)
    ensures
        r matches Some(j) ==> j < names@.len() && names@[j as int]@ == sym@,
        r is None ==> forall|t: int| 0 <= t < names@.len() ==> (#[trigger] names@[t])@ != sym@,
{
    let mut j: usize = 0;
    while j < names.len()
        invariant
            j <= names@.len(),
            forall|t: int| 0 <= t < j ==> (#[trigger] names@[t])@ != sym@,
        decreases names@.len() - j,
    {
        if names[j] == *sym {
            return Some(j);
        }
        j = j + 1;
    }
    None
}

/// `a` holds the statistics of the outcomes `s` (see `analyze`).
pub open spec fn analysis_matches(s: Seq<TradeOutcome>, a: PerformanceAnalysis) -> bool {
    &&& a.total_trades == s.len()
    &&& a.winning_trades == count_wins(s)
    &&& a.losing_trades == s.len() - count_wins(s)
    &&& a.win_rate == rate(count_wins(s) as int, s.len() as int)
    &&& a.avg_win == mean(sum_wins(s), count_wins(s) as int)
    &&& a.avg_loss == mean(sum_losses(s), s.len() - count_wins(s))
    &&& a.profit_factor == profit_factor(sum_wins(s), sum_losses(s))
    &&& sharpe_matches(s, a.sharpe_ratio as int)
    &&& a.recent_trades@ == s
    &&& a.symbol_stats@.len() == distinct_symbols(s).len()
    &&& (forall|j: int|
            0 <= j < a.symbol_stats@.len() ==> symbol_perf_matches(
                #[trigger] a.symbol_stats@[j],
                s,
                distinct_symbols(s)[j],
            ))
    &&& (s.len() == 0 ==> a.best_symbol@ == Seq::<char>::empty() && a.worst_symbol@ == Seq::<char>::empty())
    &&& (s.len() > 0 ==> distinct_symbols(s).contains(a.best_symbol@) && forall|c: Seq<char>|
            #[trigger] distinct_symbols(s).contains(c) ==> !ranks_above_best(s, c, a.best_symbol@))
    &&& (s.len() > 0 ==> distinct_symbols(s).contains(a.worst_symbol@) && forall|c: Seq<char>|
            #[trigger] distinct_symbols(s).contains(c) ==> !ranks_above_worst(s, c, a.worst_symbol@))
}

/// Statistics of a set of trade outcomes: counts of winning (profit above 0)
/// and losing trades, win rate, mean win and loss, profit factor, Sharpe ratio,
/// per-symbol statistics and the best and worst symbol by total profit
/// (ties going to the earlier name). The outcomes are kept as the recent trades.
pub fn analyze(outcomes: Vec<TradeOutcome>) -> (r: PerformanceAnalysis)
    requires
        outcomes_bounded(outcomes@),
    ensures
        analysis_matches(outcomes@, r),
{
    let ghost s = outcomes@;
    let n = outcomes.len();
    let mut wins: usize = 0;
    let mut win_total: i128 = 0;
    let mut loss_total: i128 = 0;
    let mut pct_ok: bool = true;
    let mut pct_total: i128 = 0;
    let mut pct_sq_total: i128 = 0;
    let mut names: Vec<String> = Vec::new();
    let mut counts: Vec<usize> = Vec::new();
    let mut win_counts: Vec<usize> = Vec::new();
    let mut pnls: Vec<i128> = Vec::new();
    let mut i: usize = 0;
    while i < n
        invariant
            n == s.len() <= MAX_TRADES,
            outcomes@ == s,
            outcomes_bounded(s),
            i <= n,
            wins == count_wins(s.take(i as int)),
            wins <= i,
            win_total == sum_wins(s.take(i as int)),
            loss_total == sum_losses(s.take(i as int)),
            0 <= win_total <= i * MAX_PNL,
            -(i * MAX_PNL) <= loss_total <= 0,
            pct_ok == pcts_bounded(s.take(i as int)),
            pct_ok ==> pct_total == sum_pct(s.take(i as int)),
            pct_ok ==> -(i * MAX_PNL_PCT) <= pct_total <= i * MAX_PNL_PCT,
            pct_ok ==> pct_sq_total == sum_sq_pct(s.take(i as int)),
            pct_ok ==> 0 <= pct_sq_total <= i * MAX_PNL_PCT_SQ,
            names@.len() == distinct_symbols(s.take(i as int)).len(),
            counts@.len() == names@.len(),
            win_counts@.len() == names@.len(),
            pnls@.len() == names@.len(),
            forall|j: int|
                0 <= j < names@.len() ==> {
                    let sym = distinct_symbols(s.take(i as int))[j];
                    &&& (#[trigger] names@[j])@ == sym
                    &&& counts@[j] == sym_count(s.take(i as int), sym)
                    &&& win_counts@[j] == sym_wins(s.take(i as int), sym)
                    &&& pnls@[j] == sym_pnl(s.take(i as int), sym)
                    &&& counts@[j] <= i
                    &&& win_counts@[j] <= counts@[j]
                    &&& -(i * MAX_PNL) <= pnls@[j] <= i * MAX_PNL
                },
        decreases n - i,
    {
        let ghost pre = s.take(i as int);
        let ghost post = s.take(i as int + 1);
        proof {
            assert(post.drop_last() =~= pre);
            assert(post.last() == s[i as int]);
            lemma_distinct_facts(pre);
        }
        let o = &outcomes[i];
        let pnl = o.pn_l;
        let pct = o.pn_l_pct;
        if pnl > 0 {
            wins = wins + 1;
            win_total = win_total + pnl;
        } else {
            loss_total = loss_total + pnl;
        }
        proof {
            assert(pcts_bounded(post) == (pcts_bounded(pre) && -MAX_PNL_PCT <= pct <= MAX_PNL_PCT)) by {
                if pcts_bounded(post) {
                    assert(post[i as int] == s[i as int]);
                    assert forall|j: int| 0 <= j < pre.len() implies -MAX_PNL_PCT <= (#[trigger] pre[j]).pn_l_pct
                        <= MAX_PNL_PCT by {
                        assert(pre[j] == post[j]);
                    }
                }
                if pcts_bounded(pre) && -MAX_PNL_PCT <= pct <= MAX_PNL_PCT {
                    assert forall|j: int| 0 <= j < post.len() implies -MAX_PNL_PCT <= (#[trigger] post[j]).pn_l_pct
                        <= MAX_PNL_PCT by {
                        if j < pre.len() {
                            assert(pre[j] == post[j]);
                        }
                    }
                }
            }
        }
        if pct_ok && -MAX_PNL_PCT <= pct && pct <= MAX_PNL_PCT {
            pct_total = pct_total + pct;
            assert(0 <= pct * pct <= MAX_PNL_PCT_SQ) by (nonlinear_arith)
                requires
                    -MAX_PNL_PCT <= pct <= MAX_PNL_PCT,
                    MAX_PNL_PCT_SQ == MAX_PNL_PCT * MAX_PNL_PCT,
            ;
            pct_sq_total = pct_sq_total + pct * pct;
        } else {
            pct_ok = false;
        }
        let found = position_of(&names, &o.symbol);
        let ghost names0 = names@;
        let ghost d = distinct_symbols(pre);
        if let Some(j) = found {
            assert(names@[j as int]@ == d[j as int]);
            assert(d[j as int] == o.symbol@);
            assert(distinct_symbols(post) == d) by {
                assert(d.contains(o.symbol@));
            }
            let c = counts[j] + 1;
            counts.set(j, c);
            if pnl > 0 {
                let w = win_counts[j] + 1;
                win_counts.set(j, w);
            }
            let p = pnls[j] + pnl;
            pnls.set(j, p);
        } else {
            assert(!d.contains(o.symbol@)) by {
                if d.contains(o.symbol@) {
                    let t = choose|t: int| 0 <= t < d.len() && d[t] == o.symbol@;
                    assert(names@[t]@ == d[t]);
                }
            }
            assert(distinct_symbols(post) == d.push(o.symbol@));
            names.push(o.symbol.clone());
            counts.push(1);
            win_counts.push(if pnl > 0 {
                1
            } else {
                0
            });
            pnls.push(pnl);
        }
        proof {
            let dp = distinct_symbols(post);
            let sym0 = o.symbol@;
            assert(o.symbol@ == post.last().symbol@);
            assert(pnl == post.last().pn_l);
            assert forall|t: int| 0 <= t < names@.len() implies {
                let sym = dp[t];
                &&& (#[trigger] names@[t])@ == sym
                &&& counts@[t] == sym_count(post, sym)
                &&& win_counts@[t] == sym_wins(post, sym)
                &&& pnls@[t] == sym_pnl(post, sym)
                &&& counts@[t] <= i + 1
                &&& win_counts@[t] <= counts@[t]
                &&& -((i + 1) * MAX_PNL) <= pnls@[t] <= (i + 1) * MAX_PNL
            } by {
                if t < d.len() {
                    assert(dp[t] == d[t]);
                    assert(names0[t]@ == d[t]);
                    if d[t] == sym0 {
                        assert(found == Some(t as usize)) by {
                            if let Some(j) = found {
                                if j as int != t {
                                    assert(names0[j as int]@ == d[j as int]);
                                }
                            }
                        }
                    } else {
                        if let Some(j) = found {
                            assert(names0[j as int]@ == sym0);
                            assert(j as int != t);
                        }
                    }
                } else {
                    assert(found is None);
                    assert(t == d.len());
                    assert(dp[t] == sym0);
                    assert(!d.contains(sym0));
                }
            }
        }
        i = i + 1;
    }
    assert(s.take(n as int) =~= s);
    proof {
        lemma_distinct_facts(s);
    }
    let ghost d = distinct_symbols(s);
    let mut stats: Vec<SymbolPerformance> = Vec::new();
    let mut k: usize = 0;
    while k < names.len()
        invariant
            k <= names@.len() == d.len(),
            counts@.len() == names@.len(),
            win_counts@.len() == names@.len(),
            pnls@.len() == names@.len(),
            n == s.len() <= MAX_TRADES,
            stats@.len() == k,
            forall|j: int|
                0 <= j < names@.len() ==> {
                    let sym = d[j];
                    &&& (#[trigger] names@[j])@ == sym
                    &&& counts@[j] == sym_count(s, sym)
                    &&& win_counts@[j] == sym_wins(s, sym)
                    &&& pnls@[j] == sym_pnl(s, sym)
                    &&& counts@[j] <= n
                    &&& win_counts@[j] <= counts@[j]
                    &&& -(n * MAX_PNL) <= pnls@[j] <= n * MAX_PNL
                },
            forall|j: int| 0 <= j < k ==> symbol_perf_matches(#[trigger] stats@[j], s, d[j]),
        decreases names@.len() - k,
    {
        assert(names@[k as int]@ == d[k as int]);
        let count = counts[k];
        let won = win_counts[k];
        let total = pnls[k];
        let win_rate: i128 = if count == 0 {
            0
        } else {
            (won as i128 * SCALE as i128) / count as i128
        };
        let avg: i128 = if count == 0 {
            0
        } else if total >= 0 {
            total / count as i128
        } else {
            -((-total) / count as i128)
        };
        stats.push(
            SymbolPerformance {
                symbol: names[k].clone(),
                total_trades: count,
                winning_trades: won,
                losing_trades: count - won,
                win_rate,
                total_pn_l: total,
                avg_pn_l: avg,
            },
        );
        k = k + 1;
    }
    let mut best: usize = 0;
    let mut worst: usize = 0;
    let mut k: usize = 1;
    proof {
        if names@.len() > 0 {
            lemma_name_lt_irreflexive(d[0], 0);
        }
    }
    while k < names.len()
        invariant
            1 <= k,
            k <= names@.len() || names@.len() == 0,
            names@.len() == d.len(),
            pnls@.len() == names@.len(),
            names@.len() > 0 ==> best < names@.len() && worst < names@.len(),
            forall|j: int| 0 <= j < names@.len() ==> (#[trigger] names@[j])@ == d[j] && pnls@[j] == sym_pnl(s, d[j]),
            forall|j: int| 0 <= j < k && j < names@.len() ==> !ranks_above_best(s, #[trigger] d[j], d[best as int]),
            forall|j: int| 0 <= j < k && j < names@.len() ==> !ranks_above_worst(s, #[trigger] d[j], d[worst as int]),
        decreases names@.len() - k,
    {
        let ghost b = best as int;
        let ghost w = worst as int;
        let ghost c = k as int;
        assert(names@[c]@ == d[c] && pnls@[c] == sym_pnl(s, d[c]));
        assert(names@[b]@ == d[b] && pnls@[b] == sym_pnl(s, d[b]));
        assert(names@[w]@ == d[w] && pnls@[w] == sym_pnl(s, d[w]));
        if pnls[k] > pnls[best] || (pnls[k] == pnls[best] && name_before(&names[k], &names[best])) {
            proof {
                assert(ranks_above_best(s, d[c], d[b]));
                assert forall|j: int| 0 <= j < k implies !ranks_above_best(s, #[trigger] d[j], d[c]) by {
                    assert(!ranks_above_best(s, d[j], d[b]));
                    if sym_pnl(s, d[j]) == sym_pnl(s, d[c]) && sym_pnl(s, d[c]) == sym_pnl(s, d[b]) && name_lt(
                        d[j],
                        d[c],
                    ) {
                        lemma_name_lt_transitive(d[j], d[c], d[b], 0);
                    }
                }
                lemma_name_lt_irreflexive(d[c], 0);
            }
            best = k;
        }
        if pnls[k] < pnls[worst] || (pnls[k] == pnls[worst] && name_before(&names[k], &names[worst])) {
            proof {
                assert(ranks_above_worst(s, d[c], d[w]));
                assert forall|j: int| 0 <= j < k implies !ranks_above_worst(s, #[trigger] d[j], d[c]) by {
                    assert(!ranks_above_worst(s, d[j], d[w]));
                    if sym_pnl(s, d[j]) == sym_pnl(s, d[c]) && sym_pnl(s, d[c]) == sym_pnl(s, d[w]) && name_lt(
                        d[j],
                        d[c],
                    ) {
                        lemma_name_lt_transitive(d[j], d[c], d[w], 0);
                    }
                }
                lemma_name_lt_irreflexive(d[c], 0);
            }
            worst = k;
        }
        k = k + 1;
    }
    let best_symbol = if names.len() == 0 {
        String::new()
    } else {
        names[best].clone()
    };
    let worst_symbol = if names.len() == 0 {
        String::new()
    } else {
        names[worst].clone()
    };
    proof {
        if names@.len() > 0 {
            lemma_name_lt_irreflexive(d[0], 0);
            assert(d.contains(best_symbol@)) by {
                assert(d[best as int] == best_symbol@);
            }
            assert(d.contains(worst_symbol@)) by {
                assert(d[worst as int] == worst_symbol@);
            }
            assert forall|c: Seq<char>| #[trigger] d.contains(c) implies !ranks_above_best(s, c, best_symbol@)
                && !ranks_above_worst(s, c, worst_symbol@) by {
                let j = choose|j: int| 0 <= j < d.len() && d[j] == c;
                assert(!ranks_above_best(s, d[j], d[best as int]));
                assert(!ranks_above_worst(s, d[j], d[worst as int]));
            }
        }
    }
    let losses = n - wins;
    let win_rate: i128 = if n == 0 {
        0
    } else {
        (wins as i128 * SCALE as i128) / n as i128
    };
    let avg_win: i128 = if wins == 0 {
        0
    } else {
        win_total / wins as i128
    };
    let avg_loss: i128 = if losses == 0 {
        0
    } else {
        -((-loss_total) / losses as i128)
    };
    let profit_factor: i128 = if loss_total == 0 {
        0
    } else {
        (win_total * SCALE as i128) / (-loss_total)
    };
    let sharpe_ratio = if pct_ok && n <= SHARPE_MAX_TRADES {
        sharpe_from_sums(n, pct_total, pct_sq_total)
    } else {
        0
    };
    PerformanceAnalysis {
        total_trades: n,
        winning_trades: wins,
        losing_trades: losses,
        win_rate,
        avg_win,
        avg_loss,
        profit_factor,
        sharpe_ratio,
        recent_trades: outcomes,
        symbol_stats: stats,
        best_symbol,
        worst_symbol,
    }
}

/// Sharpe ratio from the count, sum and sum of squares of the profit percentages.
fn sharpe_from_sums(n: usize, sum: i128, sum_sq: i128) -> (r: i128)
    requires
        n <= SHARPE_MAX_TRADES,
        -(n * MAX_PNL_PCT) <= sum <= n * MAX_PNL_PCT,
        0 <= sum_sq <= n * MAX_PNL_PCT_SQ,
    ensures
        ({
            let v = n * sum_sq - sum * sum;
            if n < 2 || v <= 0 {
                r == 0
            } else {
                exists|sd: int|
                    is_sqrt_floor(v, sd) && r == (if sd == 0 {
                        0
                    } else {
                        tdiv(sum * SCALE, sd)
                    })
            }
        }),
{
    if n < 2 {
        return 0;
    }
    assert(0 <= n * sum_sq <= SHARPE_MAX_TRADES * (SHARPE_MAX_TRADES * (MAX_PNL_PCT * MAX_PNL_PCT))) by (nonlinear_arith)
        requires
            0 <= n <= SHARPE_MAX_TRADES,
            0 <= sum_sq <= n * MAX_PNL_PCT_SQ,
    ;
    assert(0 <= sum * sum <= (SHARPE_MAX_TRADES * MAX_PNL_PCT) * (SHARPE_MAX_TRADES * MAX_PNL_PCT)) by (nonlinear_arith)
        requires
            0 <= n <= SHARPE_MAX_TRADES,
            -(n * MAX_PNL_PCT) <= sum <= n * MAX_PNL_PCT,
    ;
    let v: i128 = n as i128 * sum_sq - sum * sum;
    if v <= 0 {
        return 0;
    }
    let sd = isqrt(v as u128);
    assert(is_sqrt_floor(v as int, sd as int));
    if sd == 0 {
        return 0;
    }
    assert(sd <= v) by (nonlinear_arith)
        requires
            sd * sd <= v,
            sd >= 1,
    ;
    assert(-(SHARPE_MAX_TRADES * MAX_PNL_PCT) <= sum <= SHARPE_MAX_TRADES * MAX_PNL_PCT) by (nonlinear_arith)
        requires
            0 <= n <= SHARPE_MAX_TRADES,
            -(n * MAX_PNL_PCT) <= sum <= n * MAX_PNL_PCT,
    ;
    let scale = SCALE as i128;
    assert(scale == 100_000_000);
    assert(-1_000_000_000_000_000_000_000_000_000 <= sum * scale <= 1_000_000_000_000_000_000_000_000_000) by (nonlinear_arith)
        requires
            -(SHARPE_MAX_TRADES * MAX_PNL_PCT) <= sum <= SHARPE_MAX_TRADES * MAX_PNL_PCT,
            scale == 100_000_000,
            SHARPE_MAX_TRADES == 1_000_000,
            MAX_PNL_PCT == 10_000_000_000_000,
    ;
    let num: i128 = sum * scale;
    if num >= 0 {
        num / sd as i128
    } else {
        -((-num) / sd as i128)
    }
}

} // verus!
