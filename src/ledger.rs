use vstd::prelude::*;

use crate::indicators::tdiv;
use crate::types::{MAX_PRICE, SCALE};

verus! {

/// Largest quantity an action may carry, in fixed-point units.
pub const MAX_QUANTITY: i64 = 1_000_000_000_000_000;

/// Kind of a decision action.
#[derive(Clone, Copy, Debug, PartialEq, Eq, Structural)]
pub enum Action {
    OpenShort,
    OpenLong,
    CloseShort,
    CloseLong,
}

/// Direction of a position.
#[derive(Clone, Copy, Debug, PartialEq, Eq, Structural)]
pub enum Side {
    Short,
    Long,
}

impl Action {
    /// `open_long` and `close_long` act on the long side, the others on the short side.
    pub open spec fn side_spec(self) -> Side {
        match self {
            Action::OpenLong | Action::CloseLong => Side::Long,
            Action::OpenShort | Action::CloseShort => Side::Short,
        }
    }

    pub open spec fn is_open_spec(self) -> bool {
        self is OpenLong || self is OpenShort
    }

    /// Side of the position the action opens or closes.
    pub fn side(&self) -> (r: Side)
        ensures
            r == self.side_spec(),
    {
        match self {
            Action::OpenLong | Action::CloseLong => Side::Long,
            Action::OpenShort | Action::CloseShort => Side::Short,
        }
    }

    /// The action opens a position.
    pub fn is_open(&self) -> (r: bool)
        ensures
            r == self.is_open_spec(),
    {
        match self {
            Action::OpenLong | Action::OpenShort => true,
            Action::CloseLong | Action::CloseShort => false,
        }
    }
}

/// One action of a decision cycle. Quantity and price are fixed-point,
/// the timestamp is in epoch milliseconds.
#[derive(Debug)]
pub struct DecisionAction {
    pub action: Action,
    pub symbol: String,
    pub quantity: i64,
    pub leverage: i32,
    pub price: i64,
    pub order_id: i64,
    pub timestamp: i64,
    pub success: bool,
    pub error: String,
}

impl DecisionAction {
    /// Price in `[0, MAX_PRICE]`, quantity in `[0, MAX_QUANTITY]`.
    pub open spec fn wf(&self) -> bool {
        &&& 0 <= self.price <= MAX_PRICE
        &&& 0 <= self.quantity <= MAX_QUANTITY
    }
}

/// Every action of the sequence is well formed.
pub open spec fn actions_wf(s: Seq<DecisionAction>) -> bool {
    forall|i: int| 0 <= i < s.len() ==> (#[trigger] s[i]).wf()
}

/// Entry data of an open position.
#[derive(Clone, Copy, Debug, PartialEq, Eq, Structural)]
pub struct PositionEntry {
    pub open_price: i64,
    pub open_time: i64,
    pub quantity: i64,
    pub leverage: i32,
}

impl PositionEntry {
    pub open spec fn wf(&self) -> bool {
        &&& 0 <= self.open_price <= MAX_PRICE
        &&& 0 <= self.quantity <= MAX_QUANTITY
    }
}

/// Key of an open position: symbol and side.
pub type PositionKey = (Seq<char>, Side);

/// Entry that a successful open action records.
pub open spec fn entry_of(a: DecisionAction) -> PositionEntry {
    PositionEntry {
        open_price: a.price,
        open_time: a.timestamp,
        quantity: a.quantity,
        leverage: a.leverage,
    }
}

pub open spec fn key_of(a: DecisionAction) -> PositionKey {
    (a.symbol@, a.action.side_spec())
}

/// Open positions after one action: a successful open (re)records its key, a
/// successful close clears it, a failed action changes nothing.
pub open spec fn step(m: Map<PositionKey, PositionEntry>, a: DecisionAction) -> Map<PositionKey, PositionEntry> {
    if !a.success {
        m
    } else if a.action.is_open_spec() {
        m.insert(key_of(a), entry_of(a))
    } else {
        m.remove(key_of(a))
    }
}

/// A successful close that finds an open position for its key is matched with it.
pub open spec fn closes_position(m: Map<PositionKey, PositionEntry>, a: DecisionAction) -> bool {
    a.success && !a.action.is_open_spec() && m.contains_key(key_of(a))
}

/// A successful close with no open position for its key completes no trade and
/// leaves the open positions as they were.
pub proof fn lemma_unmatched_close_changes_nothing(m: Map<PositionKey, PositionEntry>, a: DecisionAction)
    requires
        !a.action.is_open_spec(),
        !m.contains_key(key_of(a)),
    ensures
        !closes_position(m, a),
        step(m, a) == m,
{
    assert(m.remove(key_of(a)) =~= m);
}

/// Replaying `a + b` is replaying `a`, then `b` from the positions `a` leaves;
/// the trades are those of `a` followed by those of `b`.
pub proof fn lemma_replay_concat(
    m: Map<PositionKey, PositionEntry>,
    a: Seq<DecisionAction>,
    b: Seq<DecisionAction>,
)
    ensures
        replay(m, a + b) == replay(replay(m, a), b),
        replay_trades(m, a + b) == replay_trades(m, a) + replay_trades(replay(m, a), b),
    decreases b.len(),
{
    if b.len() == 0 {
        assert(a + b =~= a);
        assert(replay_trades(m, a) + Seq::<TradeSpec>::empty() =~= replay_trades(m, a));
    } else {
        assert((a + b).drop_last() =~= a + b.drop_last());
        assert((a + b).last() == b.last());
        lemma_replay_concat(m, a, b.drop_last());
        let x = replay_trades(m, a);
        let y = replay_trades(replay(m, a), b.drop_last());
        let before = replay(m, a + b.drop_last());
        if closes_position(before, b.last()) {
            assert((x + y).push(trade_of(before, b.last())) =~= x + y.push(trade_of(before, b.last())));
        }
    }
}

/// A close that finds no open position for its key, inserted anywhere in an
/// action log, leaves the open positions after the log and the trades of the
/// log as they were.
pub proof fn lemma_unmatched_close_in_log(
    m: Map<PositionKey, PositionEntry>,
    a: Seq<DecisionAction>,
    c: DecisionAction,
    b: Seq<DecisionAction>,
)
    requires
        !c.action.is_open_spec(),
        !replay(m, a).contains_key(key_of(c)),
    ensures
        replay(m, a.push(c) + b) == replay(m, a + b),
        replay_trades(m, a.push(c) + b) == replay_trades(m, a + b),
{
    assert(a.push(c).drop_last() =~= a);
    assert(a.push(c).last() == c);
    lemma_unmatched_close_changes_nothing(replay(m, a), c);
    assert(replay(m, a.push(c)) == replay(m, a));
    assert(replay_trades(m, a.push(c)) == replay_trades(m, a));
    lemma_replay_concat(m, a.push(c), b);
    lemma_replay_concat(m, a, b);
}

/// A reconstructed trade, before its derived figures: symbol, side, entry, close price and time.
pub type TradeSpec = (Seq<char>, Side, PositionEntry, int, int);

pub open spec fn trade_of(m: Map<PositionKey, PositionEntry>, a: DecisionAction) -> TradeSpec {
    (a.symbol@, a.action.side_spec(), m[key_of(a)], a.price as int, a.timestamp as int)
}

/// Open positions after replaying `s` from `m`.
pub open spec fn replay(m: Map<PositionKey, PositionEntry>, s: Seq<DecisionAction>) -> Map<PositionKey, PositionEntry>
    decreases s.len(),
{
    if s.len() == 0 {
        m
    } else {
        step(replay(m, s.drop_last()), s.last())
    }
}

/// Trades produced by replaying `s` from `m`, in order.
pub open spec fn replay_trades(m: Map<PositionKey, PositionEntry>, s: Seq<DecisionAction>) -> Seq<TradeSpec>
    decreases s.len(),
{
    if s.len() == 0 {
        Seq::empty()
    } else {
        let before = replay(m, s.drop_last());
        let earlier = replay_trades(m, s.drop_last());
        if closes_position(before, s.last()) {
            earlier.push(trade_of(before, s.last()))
        } else {
            earlier
        }
    }
}

/// Profit of a trade: `quantity * (close - open)` for a long, `quantity * (open - close)`
/// for a short, fixed-point, rounded toward zero.
pub open spec fn pnl_of(side: Side, e: PositionEntry, close_price: int) -> int {
    let diff = if side is Long {
        close_price - e.open_price
    } else {
        e.open_price - close_price
    };
    tdiv(e.quantity * diff, SCALE as int)
}

/// `quantity * open_price`, fixed-point, rounded down.
pub open spec fn position_value_of(e: PositionEntry) -> int {
    (e.quantity * e.open_price) / (SCALE as int)
}

/// `position_value / leverage`, 0 for a leverage of 0.
pub open spec fn margin_of(e: PositionEntry) -> int {
    if e.leverage == 0 {
        0
    } else if e.leverage > 0 {
        position_value_of(e) / (e.leverage as int)
    } else {
        -(position_value_of(e) / (-e.leverage as int))
    }
}

/// `pnl / margin * 100` in fixed-point percent when the margin is positive, else 0.
pub open spec fn pnl_pct_of(pnl: int, margin: int) -> int {
    if margin > 0 {
        tdiv(pnl * 100 * SCALE, margin)
    } else {
        0
    }
}

/// Realized outcome of a matched open and close.
#[derive(Debug)]
pub struct TradeOutcome {
    pub symbol: String,
    pub side: Side,
    pub quantity: i64,
    pub leverage: i32,
    pub open_price: i64,
    pub close_price: i64,
    pub position_value: i128,
    pub margin_used: i128,
    pub pn_l: i128,
    pub pn_l_pct: i128,
    /// Time between open and close, in milliseconds.
    pub duration: i128,
    pub open_time: i64,
    pub close_time: i64,
    pub was_stop_loss: bool,
}

/// `o` is the outcome of trade `t`, with its derived figures.
pub open spec fn outcome_matches(o: TradeOutcome, t: TradeSpec) -> bool {
    let (symbol, side, e, close_price, close_time) = t;
    &&& o.symbol@ == symbol
    &&& o.side == side
    &&& o.quantity == e.quantity
    &&& o.leverage == e.leverage
    &&& o.open_price == e.open_price
    &&& o.close_price == close_price
    &&& o.open_time == e.open_time
    &&& o.close_time == close_time
    &&& o.position_value == position_value_of(e)
    &&& o.margin_used == margin_of(e)
    &&& o.pn_l == pnl_of(side, e, close_price)
    &&& o.pn_l_pct == pnl_pct_of(pnl_of(side, e, close_price), margin_of(e))
    &&& o.duration == close_time - e.open_time
    &&& !o.was_stop_loss
}

/// Largest magnitude of a trade's profit, fixed-point.
pub const MAX_PNL: i128 = 10_000_000_000_000_000_000_000;

/// Computes the outcome of closing position `e` of `symbol` at `close_price`.
pub fn make_outcome(symbol: &String, side: Side, e: PositionEntry, close_price: i64, close_time: i64) -> (r: TradeOutcome)
    requires
        e.wf(),
        0 <= close_price <= MAX_PRICE,
    ensures
        outcome_matches(r, (symbol@, side, e, close_price as int, close_time as int)),
        -MAX_PNL <= r.pn_l <= MAX_PNL,
{
    let diff: i128 = match side {
        Side::Long => close_price as i128 - e.open_price as i128,
        Side::Short => e.open_price as i128 - close_price as i128,
    };
    assert(-MAX_PRICE <= diff <= MAX_PRICE);
    let q = e.quantity as i128;
    assert(-MAX_QUANTITY * MAX_PRICE <= q * diff <= MAX_QUANTITY * MAX_PRICE) by (nonlinear_arith)
        requires
            0 <= q <= MAX_QUANTITY,
            -MAX_PRICE <= diff <= MAX_PRICE,
    ;
    let prod = q * diff;
    let pnl: i128 = if prod >= 0 {
        prod / (SCALE as i128)
    } else {
        -((-prod) / (SCALE as i128))
    };
    assert(0 <= q * (e.open_price as i128) <= MAX_QUANTITY * MAX_PRICE) by (nonlinear_arith)
        requires
            0 <= q <= MAX_QUANTITY,
            0 <= e.open_price <= MAX_PRICE,
    ;
    let position_value: i128 = (q * e.open_price as i128) / (SCALE as i128);
    let margin: i128 = if e.leverage == 0 {
        0
    } else if e.leverage > 0 {
        position_value / (e.leverage as i128)
    } else {
        -(position_value / (-(e.leverage as i128)))
    };
    let pnl_pct: i128 = if margin > 0 {
        let num = pnl * 100 * (SCALE as i128);
        if num >= 0 {
            num / margin
        } else {
            -((-num) / margin)
        }
    } else {
        0
    };
    TradeOutcome {
        symbol: symbol.clone(),
        side,
        quantity: e.quantity,
        leverage: e.leverage,
        open_price: e.open_price,
        close_price,
        position_value,
        margin_used: margin,
        pn_l: pnl,
        pn_l_pct: pnl_pct,
        duration: close_time as i128 - e.open_time as i128,
        open_time: e.open_time,
        close_time,
        was_stop_loss: false,
    }
}

/// A position opened and not yet closed.
#[derive(Debug)]
pub struct OpenPosition {
    pub symbol: String,
    pub side: Side,
    pub entry: PositionEntry,
}

pub open spec fn pos_key(p: OpenPosition) -> PositionKey {
    (p.symbol@, p.side)
}

/// No two positions share a key.
pub open spec fn keys_unique(s: Seq<OpenPosition>) -> bool {
    forall|i: int, j: int|
        0 <= i < s.len() && 0 <= j < s.len() && i != j ==> pos_key(#[trigger] s[i]) != pos_key(#[trigger] s[j])
}

pub open spec fn has_key(s: Seq<OpenPosition>, k: PositionKey) -> bool {
    exists|i: int| 0 <= i < s.len() && pos_key(#[trigger] s[i]) == k
}

/// The positions as a map from key to entry.
pub open spec fn book_view(s: Seq<OpenPosition>) -> Map<PositionKey, PositionEntry> {
    Map::new(
        |k: PositionKey| has_key(s, k),
        |k: PositionKey| s[choose|i: int| 0 <= i < s.len() && pos_key(#[trigger] s[i]) == k].entry,
    )
}

proof fn lemma_view_at(s: Seq<OpenPosition>, i: int)
    requires
        keys_unique(s),
        0 <= i < s.len(),
    ensures
        book_view(s).contains_key(pos_key(s[i])),
        book_view(s)[pos_key(s[i])] == s[i].entry,
{
    let k = pos_key(s[i]);
    assert(has_key(s, k));
    let j = choose|j: int| 0 <= j < s.len() && pos_key(#[trigger] s[j]) == k;
    assert(j == i);
}

proof fn lemma_view_update(s: Seq<OpenPosition>, i: int, p: OpenPosition)
    requires
        keys_unique(s),
        0 <= i < s.len(),
        pos_key(p) == pos_key(s[i]),
    ensures
        keys_unique(s.update(i, p)),
        book_view(s.update(i, p)) == book_view(s).insert(pos_key(p), p.entry),
{
    let t = s.update(i, p);
    assert forall|a: int| 0 <= a < s.len() implies pos_key(#[trigger] t[a]) == pos_key(s[a]) by {}
    assert(keys_unique(t)) by {
        assert forall|a: int, b: int|
            0 <= a < t.len() && 0 <= b < t.len() && a != b implies pos_key(#[trigger] t[a]) != pos_key(#[trigger] t[b]) by {
            assert(pos_key(t[a]) == pos_key(s[a]));
            assert(pos_key(t[b]) == pos_key(s[b]));
        }
    }
    let m = book_view(s).insert(pos_key(p), p.entry);
    assert forall|k: PositionKey| book_view(t).contains_key(k) <==> m.contains_key(k) by {
        if has_key(t, k) {
            let a = choose|a: int| 0 <= a < t.len() && pos_key(#[trigger] t[a]) == k;
            assert(pos_key(s[a]) == k);
            assert(has_key(s, k));
        }
        if has_key(s, k) {
            let a = choose|a: int| 0 <= a < s.len() && pos_key(#[trigger] s[a]) == k;
            assert(pos_key(t[a]) == k);
            assert(has_key(t, k));
        }
        if k == pos_key(p) {
            assert(pos_key(t[i]) == k);
        }
    }
    assert forall|k: PositionKey| book_view(t).contains_key(k) implies book_view(t)[k] == m[k] by {
        let a = choose|a: int| 0 <= a < t.len() && pos_key(#[trigger] t[a]) == k;
        lemma_view_at(t, a);
        if a != i {
            assert(t[a] == s[a]);
            lemma_view_at(s, a);
        }
    }
    assert(book_view(t) =~= m);
}

proof fn lemma_view_push(s: Seq<OpenPosition>, p: OpenPosition)
    requires
        keys_unique(s),
        !has_key(s, pos_key(p)),
    ensures
        keys_unique(s.push(p)),
        book_view(s.push(p)) == book_view(s).insert(pos_key(p), p.entry),
{
    let t = s.push(p);
    assert(keys_unique(t)) by {
        assert forall|a: int, b: int|
            0 <= a < t.len() && 0 <= b < t.len() && a != b implies pos_key(#[trigger] t[a]) != pos_key(#[trigger] t[b]) by {
            if a < s.len() && b < s.len() {
                assert(t[a] == s[a] && t[b] == s[b]);
            } else if a < s.len() {
                assert(t[a] == s[a]);
            } else {
                assert(t[b] == s[b]);
            }
        }
    }
    let m = book_view(s).insert(pos_key(p), p.entry);
    assert forall|k: PositionKey| book_view(t).contains_key(k) <==> m.contains_key(k) by {
        if has_key(t, k) {
            let a = choose|a: int| 0 <= a < t.len() && pos_key(#[trigger] t[a]) == k;
            if a < s.len() {
                assert(t[a] == s[a]);
                assert(has_key(s, k));
            }
        }
        if has_key(s, k) {
            let a = choose|a: int| 0 <= a < s.len() && pos_key(#[trigger] s[a]) == k;
            assert(t[a] == s[a]);
            assert(has_key(t, k));
        }
        if k == pos_key(p) {
            assert(pos_key(t[s.len() as int]) == k);
        }
    }
    assert forall|k: PositionKey| book_view(t).contains_key(k) implies book_view(t)[k] == m[k] by {
        let a = choose|a: int| 0 <= a < t.len() && pos_key(#[trigger] t[a]) == k;
        lemma_view_at(t, a);
        if a < s.len() {
            assert(t[a] == s[a]);
            lemma_view_at(s, a);
        }
    }
    assert(book_view(t) =~= m);
}

proof fn lemma_view_remove(s: Seq<OpenPosition>, i: int)
    requires
        keys_unique(s),
        0 <= i < s.len(),
    ensures
        keys_unique(s.remove(i)),
        book_view(s.remove(i)) == book_view(s).remove(pos_key(s[i])),
{
    let t = s.remove(i);
    assert forall|a: int| 0 <= a < t.len() implies #[trigger] t[a] == s[if a < i { a } else { a + 1 }] by {}
    assert(keys_unique(t)) by {
        assert forall|a: int, b: int|
            0 <= a < t.len() && 0 <= b < t.len() && a != b implies pos_key(#[trigger] t[a]) != pos_key(#[trigger] t[b]) by {
            let a2 = if a < i { a } else { a + 1 };
            let b2 = if b < i { b } else { b + 1 };
            assert(t[a] == s[a2]);
            assert(t[b] == s[b2]);
        }
    }
    let m = book_view(s).remove(pos_key(s[i]));
    assert forall|k: PositionKey| book_view(t).contains_key(k) <==> m.contains_key(k) by {
        if has_key(t, k) {
            let a = choose|a: int| 0 <= a < t.len() && pos_key(#[trigger] t[a]) == k;
            let a2 = if a < i { a } else { a + 1 };
            assert(t[a] == s[a2]);
            assert(has_key(s, k));
            assert(a2 != i);
        }
        if has_key(s, k) && k != pos_key(s[i]) {
            let a = choose|a: int| 0 <= a < s.len() && pos_key(#[trigger] s[a]) == k;
            assert(a != i);
            let a2 = if a < i { a } else { a - 1 };
            assert(t[a2] == s[a]);
            assert(has_key(t, k));
        }
    }
    assert forall|k: PositionKey| book_view(t).contains_key(k) implies book_view(t)[k] == m[k] by {
        let a = choose|a: int| 0 <= a < t.len() && pos_key(#[trigger] t[a]) == k;
        let a2 = if a < i { a } else { a + 1 };
        assert(t[a] == s[a2]);
        lemma_view_at(t, a);
        lemma_view_at(s, a2);
    }
    assert(book_view(t) =~= m);
}

/// Positions opened and not yet closed, at most one per (symbol, side).
#[derive(Debug)]
pub struct PositionBook {
    pub positions: Vec<OpenPosition>,
}

impl View for PositionBook {
    type V = Map<PositionKey, PositionEntry>;

    open spec fn view(&self) -> Map<PositionKey, PositionEntry> {
        book_view(self.positions@)
    }
}

impl PositionBook {
    /// Keys are unique and every entry is well formed.
    pub open spec fn wf(&self) -> bool {
        &&& keys_unique(self.positions@)
        &&& forall|i: int| 0 <= i < self.positions@.len() ==> (#[trigger] self.positions@[i]).entry.wf()
    }

    /// A book with no open position.
    pub fn new() -> (r: PositionBook)
        ensures
            r.wf(),
            r@ == Map::<PositionKey, PositionEntry>::empty(),
    {
        let r = PositionBook { positions: Vec::new() };
        assert(r@ =~= Map::<PositionKey, PositionEntry>::empty());
        r
    }

    /// No position is open.
    pub fn is_empty(&self) -> (r: bool)
        requires
            self.wf(),
        ensures
            r == (self@ == Map::<PositionKey, PositionEntry>::empty()),
    {
        if self.positions.len() == 0 {
            assert(self@ =~= Map::<PositionKey, PositionEntry>::empty());
            true
        } else {
            proof {
                lemma_view_at(self.positions@, 0);
                assert(self@.contains_key(pos_key(self.positions@[0])));
            }
            false
        }
    }

    /// Index of the position of `symbol` on `side`, if one is open.
    fn find(&self, symbol: &String, side: Side) -> (r: Option<usize>)
        ensures
            r matches Some(i) ==> i < self.positions@.len() && pos_key(self.positions@[i as int]) == (symbol@, side),
            r is None ==> !has_key(self.positions@, (symbol@, side)),
    {
        let mut i: usize = 0;
        while i < self.positions.len()
            invariant
                i <= self.positions@.len(),
                forall|j: int| 0 <= j < i ==> pos_key(#[trigger] self.positions@[j]) != (symbol@, side),
            decreases self.positions@.len() - i,
        {
            if self.positions[i].symbol == *symbol && self.positions[i].side == side {
                return Some(i);
            }
            i = i + 1;
        }
        None
    }

    /// A position of `symbol` on `side` is open.
    pub fn has_open(&self, symbol: &String, side: Side) -> (r: bool)
        requires
            self.wf(),
        ensures
            r == self@.contains_key((symbol@, side)),
    {
        match self.find(symbol, side) {
            Some(i) => {
                proof {
                    lemma_view_at(self.positions@, i as int);
                }
                true
            },
            None => false,
        }
    }

    /// Applies one action: a successful open records its entry under its key,
    /// replacing any earlier one; a successful close clears its key and, when a
    /// position was open there, returns the trade it completes.
    pub fn apply(&mut self, a: &DecisionAction) -> (r: Option<TradeOutcome>)
        requires
            old(self).wf(),
            a.wf(),
        ensures
            final(self).wf(),
            final(self)@ == step(old(self)@, *a),
            closes_position(old(self)@, *a) ==> (r matches Some(o) && outcome_matches(o, trade_of(old(self)@, *a))),
            !closes_position(old(self)@, *a) ==> r is None,
    {
        if !a.success {
            return None;
        }
        let side = a.action.side();
        let found = self.find(&a.symbol, side);
        if a.action.is_open() {
            let p = OpenPosition {
                symbol: a.symbol.clone(),
                side,
                entry: PositionEntry {
                    open_price: a.price,
                    open_time: a.timestamp,
                    quantity: a.quantity,
                    leverage: a.leverage,
                },
            };
            match found {
                Some(i) => {
                    proof {
                        lemma_view_update(self.positions@, i as int, p);
                    }
                    self.positions.set(i, p);
                },
                None => {
                    proof {
                        lemma_view_push(self.positions@, p);
                    }
                    self.positions.push(p);
                },
            }
            None
        } else {
            match found {
                Some(i) => {
                    let ghost before = self.positions@;
                    proof {
                        lemma_view_at(before, i as int);
                        lemma_view_remove(before, i as int);
                    }
                    let p = self.positions.remove(i);
                    assert forall|j: int| 0 <= j < self.positions@.len() implies (#[trigger] self.positions@[j]).entry.wf() by {
                        let j2 = if j < i { j } else { j + 1 };
                        assert(self.positions@[j] == before[j2]);
                    }
                    Some(make_outcome(&a.symbol, side, p.entry, a.price, a.timestamp))
                },
                None => {
                    assert(self@ =~= old(self)@.remove(key_of(*a)));
                    None
                },
            }
        }
    }
}

/// Account state at the time of a decision, fixed-point.
#[derive(Clone, Copy, Debug, PartialEq, Eq)]
pub struct AccountSnapshot {
    pub total_balance: i64,
    pub available_balance: i64,
    pub total_unrealized_profit: i64,
    pub position_count: i32,
    pub margin_used_pct: i64,
}

/// A position held at the time of a decision, fixed-point.
#[derive(Debug)]
pub struct PositionSnapshot {
    pub symbol: String,
    pub side: String,
    pub position_amt: i64,
    pub entry_price: i64,
    pub mark_price: i64,
    pub unrealized_profit: i64,
    pub leverage: i64,
    pub liquidation_price: i64,
}

/// Everything logged for one decision cycle. The timestamp is in epoch milliseconds.
#[derive(Debug)]
pub struct DecisionRecord {
    pub timestamp: i64,
    pub cycle_number: i32,
    pub system_prompt: String,
    pub input_prompt: String,
    pub cot_trace: String,
    pub decision_json: String,
    pub account_state: AccountSnapshot,
    pub positions: Vec<PositionSnapshot>,
    pub candidate_coins: Vec<String>,
    pub decisions: Vec<DecisionAction>,
    pub execution_log: Vec<String>,
    pub success: bool,
    pub error_message: String,
}

/// The actions of the records, record after record.
pub open spec fn actions_of(recs: Seq<DecisionRecord>) -> Seq<DecisionAction>
    decreases recs.len(),
{
    if recs.len() == 0 {
        Seq::empty()
    } else {
        actions_of(recs.drop_last()) + recs.last().decisions@
    }
}

/// Every action of every record is well formed.
pub open spec fn records_wf(recs: Seq<DecisionRecord>) -> bool {
    forall|i: int| 0 <= i < recs.len() ==> actions_wf((#[trigger] recs[i]).decisions@)
}

/// `os` are the outcomes of the trades `ts`, one for one.
pub open spec fn outcomes_match(os: Seq<TradeOutcome>, ts: Seq<TradeSpec>) -> bool {
    &&& os.len() == ts.len()
    &&& forall|i: int| 0 <= i < os.len() ==> outcome_matches(#[trigger] os[i], ts[i])
}

impl PositionBook {
    /// Replays the actions of `records` in order and appends the trades they complete to `out`.
    pub fn replay_records(&mut self, records: &[DecisionRecord], out: &mut Vec<TradeOutcome>)
        requires
            old(self).wf(),
            records_wf(records@),
        ensures
            final(self).wf(),
            final(self)@ == replay(old(self)@, actions_of(records@)),
            final(out)@.len() >= old(out)@.len(),
            final(out)@.take(old(out)@.len() as int) == old(out)@,
            outcomes_match(final(out)@.skip(old(out)@.len() as int), replay_trades(old(self)@, actions_of(records@))),
    {
        let ghost m0 = self@;
        let ghost out0 = out@;
        let mut r: usize = 0;
        while r < records.len()
            invariant
                r <= records@.len(),
                records_wf(records@),
                self.wf(),
                self@ == replay(m0, actions_of(records@.take(r as int))),
                out@.len() >= out0.len(),
                out@.take(out0.len() as int) == out0,
                outcomes_match(out@.skip(out0.len() as int), replay_trades(m0, actions_of(records@.take(r as int)))),
            decreases records@.len() - r,
        {
            let ghost done = actions_of(records@.take(r as int));
            let decisions = &records[r].decisions;
            assert(actions_wf(decisions@));
            let mut j: usize = 0;
            while j < decisions.len()
                invariant
                    j <= decisions@.len(),
                    actions_wf(decisions@),
                    self.wf(),
                    self@ == replay(m0, done + decisions@.take(j as int)),
                    out@.len() >= out0.len(),
                    out@.take(out0.len() as int) == out0,
                    outcomes_match(out@.skip(out0.len() as int), replay_trades(m0, done + decisions@.take(j as int))),
                decreases decisions@.len() - j,
            {
                let ghost prefix = done + decisions@.take(j as int);
                let ghost next = done + decisions@.take(j as int + 1);
                assert(next.drop_last() =~= prefix);
                assert(next.last() == decisions@[j as int]);
                let ghost old_out = out@;
                assert(decisions@[j as int].wf());
                let res = self.apply(&decisions[j]);
                match res {
                    Some(o) => {
                        out.push(o);
                        assert(out@.take(out0.len() as int) =~= old_out.take(out0.len() as int));
                        assert(out@.skip(out0.len() as int) =~= old_out.skip(out0.len() as int).push(o));
                    },
                    None => {},
                }
                j = j + 1;
            }
            proof {
                let t = records@.take(r as int + 1);
                assert(t.drop_last() =~= records@.take(r as int));
                assert(decisions@.take(decisions@.len() as int) =~= decisions@);
                assert(actions_of(t) == done + decisions@);
            }
            r = r + 1;
        }
        assert(records@.take(records@.len() as int) =~= records@);
    }
}

/// Reconstructs the trades completed within `window`, after priming the open
/// positions with `history`: the trades completed while priming are dropped,
/// only the positions it leaves open are kept.
pub fn reconstruct_trades(history: &[DecisionRecord], window: &[DecisionRecord]) -> (r: Vec<TradeOutcome>)
    requires
        records_wf(history@),
        records_wf(window@),
    ensures
        outcomes_match(
            r@,
            replay_trades(
                replay(Map::<PositionKey, PositionEntry>::empty(), actions_of(history@)),
                actions_of(window@),
            ),
        ),
{
    let mut book = PositionBook::new();
    let mut discarded: Vec<TradeOutcome> = Vec::new();
    book.replay_records(history, &mut discarded);
    let mut out: Vec<TradeOutcome> = Vec::new();
    book.replay_records(window, &mut out);
    assert(out@.skip(0) =~= out@);
    out
}

} // verus!
