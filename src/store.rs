//! The rolling store: latest mids, bounded trade and candle histories, and the
//! latest book of each instrument.
use vstd::prelude::*;
use crate::codec::{pairs_view, trades_view, FeedEvent, EventView};
use crate::keyed::{has_key, keys_unique, value_at, lemma_update, lemma_push, lemma_value_at_index, find_key, put};
use crate::models::{TradeData, TradeView, WsBook, BookView, Candle, CandleView};

verus! {

/// How many trades, and how many candles, each instrument keeps unless told otherwise.
pub const DEFAULT_HISTORY: usize = 1000;

/// The last `cap` elements of a sequence, or all of it when it is no longer.
pub open spec fn keep_last<T>(s: Seq<T>, cap: nat) -> Seq<T> {
    if s.len() <= cap {
        s
    } else {
        s.subrange(s.len() - cap, s.len() as int)
    }
}

pub open spec fn candles_view(v: Seq<Candle>) -> Seq<CandleView> {
    v.map_values(|c: Candle| c@)
}

pub open spec fn has_open_time(s: Seq<CandleView>, t: u64) -> bool {
    exists|j: int| 0 <= j < s.len() && #[trigger] s[j].open_time == t
}

/// A candle replaces the bar with its open time, or else is appended as a new
/// bar, the oldest bar leaving once there are more than `cap`.
pub open spec fn candle_upsert(s: Seq<CandleView>, c: CandleView, cap: nat) -> Seq<CandleView> {
    if has_open_time(s, c.open_time) {
        s.update(choose|j: int| 0 <= j < s.len() && #[trigger] s[j].open_time == c.open_time, c)
    } else {
        keep_last(s.push(c), cap)
    }
}

pub open spec fn open_times_unique(s: Seq<CandleView>) -> bool {
    forall|a: int, b: int| 0 <= a < b < s.len() ==> s[a].open_time != s[b].open_time
}

proof fn lemma_keep_last_push<T>(a: Seq<T>, x: T, cap: nat)
    requires
        a.len() <= cap,
    ensures
        keep_last(a.push(x), cap).len() <= cap,
        a.len() < cap ==> keep_last(a.push(x), cap) == a.push(x),
        a.len() == cap ==> keep_last(a.push(x), cap) == a.push(x).remove(0),
{
    if a.len() == cap {
        assert(a.push(x).subrange(1, a.len() as int + 1) =~= a.push(x).remove(0));
    }
}

/// Appends a trade to a history of at most `cap`, the oldest leaving first.
fn push_bounded(v: &mut Vec<TradeData>, t: TradeData, cap: usize)
    requires
        old(v)@.len() <= cap,
    ensures
        trades_view(final(v)@) == keep_last(trades_view(old(v)@).push(t@), cap as nat),
        final(v)@.len() <= cap,
{
    let ghost tv = t@;
    let ghost s = trades_view(v@);
    v.push(t);
    assert(trades_view(v@) =~= s.push(tv));
    proof {
        lemma_keep_last_push(s, tv, cap as nat);
    }
    if v.len() > cap {
        let ghost before = v@;
        v.remove(0);
        assert(trades_view(v@) =~= trades_view(before).remove(0));
    }
}

/// Inserts or replaces a candle in a series of at most `cap` with distinct open times.
fn upsert_into(v: &mut Vec<Candle>, c: Candle, cap: usize)
    requires
        old(v)@.len() <= cap,
        open_times_unique(candles_view(old(v)@)),
    ensures
        candles_view(final(v)@) == candle_upsert(candles_view(old(v)@), c@, cap as nat),
        final(v)@.len() <= cap,
        open_times_unique(candles_view(final(v)@)),
{
    let ghost s = candles_view(v@);
    let ghost cv = c@;
    let mut i: usize = 0;
    while i < v.len()
        invariant
            i <= v@.len(),
            s == candles_view(v@),
            v@ == old(v)@,
            cv == c@,
            v@.len() <= cap,
            open_times_unique(s),
            forall|j: int| 0 <= j < i ==> v@[j].open_time != c.open_time,
        decreases v.len() - i,
    {
        if v[i].open_time == c.open_time {
            assert(has_open_time(s, cv.open_time)) by {
                assert(s[i as int].open_time == cv.open_time);
            }
            let ghost k = choose|j: int| 0 <= j < s.len() && #[trigger] s[j].open_time == cv.open_time;
            assert(k == i) by {
                if k < i {
                    assert(s[k].open_time != s[i as int].open_time);
                } else if k > i {
                    assert(s[i as int].open_time != s[k].open_time);
                }
            }
            v.set(i, c);
            assert(candles_view(v@) =~= s.update(i as int, cv));
            assert forall|a: int, b: int| 0 <= a < b < v@.len() implies candles_view(v@)[a].open_time
                != candles_view(v@)[b].open_time by {
                assert(s[a].open_time != s[b].open_time);
            }
            return;
        }
        i = i + 1;
    }
    assert(!has_open_time(s, cv.open_time)) by {
        if has_open_time(s, cv.open_time) {
            let k = choose|j: int| 0 <= j < s.len() && #[trigger] s[j].open_time == cv.open_time;
            assert(v@[k].open_time == cv.open_time);
        }
    }
    v.push(c);
    proof {
        lemma_keep_last_push(s, cv, cap as nat);
    }
    if v.len() > cap {
        v.remove(0);
    }
    assert(candles_view(v@) =~= keep_last(s.push(cv), cap as nat));
    let ghost t = candles_view(v@);
    assert forall|a: int, b: int| 0 <= a < b < t.len() implies t[a].open_time != t[b].open_time by {
        let ghost p = s.push(cv);
        let ghost off = p.len() - t.len();
        assert(t[a] == p[a + off] && t[b] == p[b + off]);
        if b + off < s.len() {
            assert(s[a + off].open_time != s[b + off].open_time);
        }
    }
}

/// The trades of one instrument among a sequence, in order.
pub open spec fn coin_trades(s: Seq<TradeView>, coin: Seq<char>) -> Seq<TradeView>
    decreases s.len(),
{
    if s.len() == 0 {
        Seq::empty()
    } else if s.last().coin == coin {
        coin_trades(s.drop_last(), coin).push(s.last())
    } else {
        coin_trades(s.drop_last(), coin)
    }
}

/// Trimming before an append changes nothing once the result is trimmed again.
pub proof fn lemma_keep_last_twice<T>(a: Seq<T>, x: T, cap: nat)
    ensures
        keep_last(keep_last(a, cap).push(x), cap) == keep_last(a.push(x), cap),
{
    let b = keep_last(a, cap);
    if a.len() > cap {
        assert(keep_last(b.push(x), cap) =~= keep_last(a.push(x), cap));
    }
}

/// The first price listed under an instrument's name.
pub open spec fn mid_lookup(table: Seq<(Seq<char>, Seq<char>)>, coin: Seq<char>) -> Option<Seq<char>>
    decreases table.len(),
{
    if table.len() == 0 {
        None
    } else if table[0].0 == coin {
        Some(table[0].1)
    } else {
        mid_lookup(table.drop_first(), coin)
    }
}

pub open spec fn same_trades(a: RollingStore, b: RollingStore) -> bool {
    forall|c: Seq<char>| #[trigger] a.trades_of(c) == b.trades_of(c)
}

pub open spec fn same_books(a: RollingStore, b: RollingStore) -> bool {
    forall|c: Seq<char>| #[trigger] a.book_at(c) == b.book_at(c)
}

pub open spec fn same_candles(a: RollingStore, b: RollingStore) -> bool {
    forall|c: Seq<char>| #[trigger] a.candles_of(c) == b.candles_of(c)
}

/// Two stores that no reader can tell apart.
pub open spec fn same_contents(a: RollingStore, b: RollingStore) -> bool {
    &&& a.mids_view() == b.mids_view()
    &&& same_trades(a, b)
    &&& same_books(a, b)
    &&& same_candles(a, b)
    &&& a.trade_cap() == b.trade_cap()
    &&& a.candle_cap() == b.candle_cap()
}

/// How one event changes the store: only the container it is for changes.
pub open spec fn applied(before: RollingStore, after: RollingStore, e: EventView) -> bool {
    &&& after.trade_cap() == before.trade_cap()
    &&& after.candle_cap() == before.candle_cap()
    &&& match e {
        EventView::Mids(m) => {
            &&& after.mids_view() == m
            &&& same_trades(before, after)
            &&& same_books(before, after)
            &&& same_candles(before, after)
        },
        EventView::Trades(t, _) => {
            &&& after.mids_view() == before.mids_view()
            &&& forall|c: Seq<char>| #[trigger] after.trades_of(c) == keep_last(
                before.trades_of(c) + coin_trades(t, c),
                before.trade_cap(),
            )
            &&& same_books(before, after)
            &&& same_candles(before, after)
        },
        EventView::Book(b) => {
            &&& after.mids_view() == before.mids_view()
            &&& same_trades(before, after)
            &&& forall|c: Seq<char>| #[trigger] after.book_at(c) == if c == b.coin {
                Some(b)
            } else {
                before.book_at(c)
            }
            &&& same_candles(before, after)
        },
        EventView::Candle(k) => {
            &&& after.mids_view() == before.mids_view()
            &&& same_trades(before, after)
            &&& same_books(before, after)
            &&& forall|c: Seq<char>| #[trigger] after.candles_of(c) == if c == k.coin {
                candle_upsert(before.candles_of(c), k, before.candle_cap())
            } else {
                before.candles_of(c)
            }
        },
        _ => same_contents(before, after),
    }
}

/// Applying the same mid-price table twice leaves the store as applying it once.
pub proof fn lemma_mids_replay(s0: RollingStore, s1: RollingStore, s2: RollingStore, e: EventView)
    requires
        e is Mids,
        applied(s0, s1, e),
        applied(s1, s2, e),
    ensures
        same_contents(s1, s2),
{
}

/// A history filled from empty with `n` trades of one instrument holds the last
/// `min(n, cap)` of them, in arrival order.
pub proof fn lemma_trade_history(s: Seq<TradeView>, coin: Seq<char>, cap: nat)
    requires
        forall|i: int| 0 <= i < s.len() ==> #[trigger] s[i].coin == coin,
    ensures
        keep_last(Seq::<TradeView>::empty() + coin_trades(s, coin), cap).len() == if s.len() < cap {
            s.len()
        } else {
            cap
        },
        keep_last(Seq::<TradeView>::empty() + coin_trades(s, coin), cap) == s.subrange(
            s.len() - keep_last(s, cap).len(),
            s.len() as int,
        ),
{
    lemma_coin_trades_all(s, coin);
    assert(Seq::<TradeView>::empty() + s =~= s);
    if s.len() <= cap {
        assert(s.subrange(0, s.len() as int) =~= s);
    }
}

proof fn lemma_coin_trades_all(s: Seq<TradeView>, coin: Seq<char>)
    requires
        forall|i: int| 0 <= i < s.len() ==> #[trigger] s[i].coin == coin,
    ensures
        coin_trades(s, coin) == s,
    decreases s.len(),
{
    if s.len() > 0 {
        assert(s.drop_last().len() == s.len() - 1);
        assert forall|i: int| 0 <= i < s.drop_last().len() implies #[trigger] s.drop_last()[i].coin == coin by {
            assert(s.drop_last()[i] == s[i]);
        }
        lemma_coin_trades_all(s.drop_last(), coin);
        assert(s.drop_last().push(s.last()) =~= s);
    }
}

/// A second candle with the same open time replaces the first in place: the
/// series keeps its length and holds the second candle where the first stood.
pub proof fn lemma_candle_same_open_time(s: Seq<CandleView>, first: CandleView, second: CandleView, cap: nat)
    requires
        cap > 0,
        s.len() <= cap,
        open_times_unique(s),
        first.open_time == second.open_time,
    ensures
        candle_upsert(candle_upsert(s, first, cap), second, cap).len() == candle_upsert(s, first, cap).len(),
        exists|j: int|
            0 <= j < candle_upsert(s, first, cap).len() && #[trigger] candle_upsert(s, first, cap)[j] == first
                && candle_upsert(candle_upsert(s, first, cap), second, cap) == candle_upsert(s, first, cap).update(j, second),
{
    let s1 = candle_upsert(s, first, cap);
    let j: int = if has_open_time(s, first.open_time) {
        choose|j: int| 0 <= j < s.len() && #[trigger] s[j].open_time == first.open_time
    } else {
        s1.len() - 1
    };
    if !has_open_time(s, first.open_time) {
        lemma_keep_last_push(s, first, cap);
        if s.len() == cap {
            assert(s1 == s.push(first).remove(0));
        }
    }
    assert(s1[j] == first);
    assert(has_open_time(s1, second.open_time)) by {
        assert(s1[j].open_time == second.open_time);
    }
    assert(open_times_unique(s1)) by {
        if has_open_time(s, first.open_time) {
            assert forall|a: int, b: int| 0 <= a < b < s1.len() implies s1[a].open_time != s1[b].open_time by {
                assert(s[a].open_time != s[b].open_time);
            }
        } else {
            assert forall|a: int, b: int| 0 <= a < b < s1.len() implies s1[a].open_time != s1[b].open_time by {
                let p = s.push(first);
                let off = p.len() - s1.len();
                assert(s1[a] == p[a + off] && s1[b] == p[b + off]);
                if b + off < s.len() {
                    assert(s[a + off].open_time != s[b + off].open_time);
                }
            }
        }
    }
    let k = choose|k: int| 0 <= k < s1.len() && #[trigger] s1[k].open_time == second.open_time;
    assert(k == j) by {
        if k < j {
            assert(s1[k].open_time != s1[j].open_time);
        } else if k > j {
            assert(s1[j].open_time != s1[k].open_time);
        }
    }
}

/// A candle with an open time not yet in a series below its bound adds one bar, last.
pub proof fn lemma_candle_new_open_time(s: Seq<CandleView>, c: CandleView, cap: nat)
    requires
        s.len() < cap,
        !has_open_time(s, c.open_time),
    ensures
        candle_upsert(s, c, cap).len() == s.len() + 1,
        candle_upsert(s, c, cap).last() == c,
{
    lemma_keep_last_push(s, c, cap);
}

/// A second snapshot of an instrument leaves exactly its own levels: nothing of
/// the first remains.
pub proof fn lemma_book_replaced(s0: RollingStore, s1: RollingStore, s2: RollingStore, first: BookView, second: BookView)
    requires
        first.coin == second.coin,
        applied(s0, s1, EventView::Book(first)),
        applied(s1, s2, EventView::Book(second)),
    ensures
        s2.book_at(second.coin) == Some(second),
        s2.book_at(second.coin)->0.bid_levels == second.bid_levels,
        s2.book_at(second.coin)->0.ask_levels == second.ask_levels,
{
}

/// The four containers. Each instrument name appears at most once in each keyed
/// list, each history holds at most its bound, and a candle series holds each
/// open time once.
pub struct RollingStore {
    mids: Vec<(String, String)>,
    trades: Vec<(String, Vec<TradeData>)>,
    books: Vec<(String, WsBook)>,
    candles: Vec<(String, Vec<Candle>)>,
    max_trades: usize,
    max_candles: usize,
}

impl RollingStore {
    /// The mid-price table, in the order the last update gave it.
    pub closed spec fn mids_view(&self) -> Seq<(Seq<char>, Seq<char>)> {
        pairs_view(self.mids@)
    }

    /// The trades kept for an instrument, oldest first.
    pub closed spec fn trades_of(&self, coin: Seq<char>) -> Seq<TradeView> {
        match value_at(self.trades@, coin) {
            Some(v) => trades_view(v@),
            None => Seq::empty(),
        }
    }

    /// The latest book of an instrument.
    pub closed spec fn book_at(&self, coin: Seq<char>) -> Option<BookView> {
        match value_at(self.books@, coin) {
            Some(b) => Some(b@),
            None => None,
        }
    }

    /// The candles kept for an instrument, oldest first.
    pub closed spec fn candles_of(&self, coin: Seq<char>) -> Seq<CandleView> {
        match value_at(self.candles@, coin) {
            Some(v) => candles_view(v@),
            None => Seq::empty(),
        }
    }

    pub closed spec fn trade_cap(&self) -> nat {
        self.max_trades as nat
    }

    pub closed spec fn candle_cap(&self) -> nat {
        self.max_candles as nat
    }

    pub closed spec fn wf(&self) -> bool {
        &&& keys_unique(self.trades@)
        &&& keys_unique(self.books@)
        &&& keys_unique(self.candles@)
        &&& forall|i: int| 0 <= i < self.trades@.len() ==> #[trigger] self.trades@[i].1@.len() <= self.max_trades
        &&& forall|i: int| 0 <= i < self.candles@.len() ==> #[trigger] self.candles@[i].1@.len() <= self.max_candles
        &&& forall|i: int| 0 <= i < self.candles@.len() ==> open_times_unique(candles_view(#[trigger] self.candles@[i].1@))
    }

    /// A history never holds more than its bound.
    pub proof fn lemma_bounded(&self, coin: Seq<char>)
        requires
            self.wf(),
        ensures
            self.trades_of(coin).len() <= self.trade_cap(),
            self.candles_of(coin).len() <= self.candle_cap(),
    {
        if has_key(self.trades@, coin) {
            let i = choose|i: int| 0 <= i < self.trades@.len() && #[trigger] self.trades@[i].0@ == coin;
            assert(self.trades@[i].1@.len() <= self.max_trades);
        }
        if has_key(self.candles@, coin) {
            let i = choose|i: int| 0 <= i < self.candles@.len() && #[trigger] self.candles@[i].0@ == coin;
            assert(self.candles@[i].1@.len() <= self.max_candles);
        }
    }

    /// An empty store that keeps up to `max_trades` trades and `max_candles`
    /// candles per instrument.
    pub fn new(max_trades: usize, max_candles: usize) -> (r: RollingStore)
        ensures
            r.wf(),
            r.trade_cap() == max_trades,
            r.candle_cap() == max_candles,
            r.mids_view() == Seq::<(Seq<char>, Seq<char>)>::empty(),
            forall|c: Seq<char>| #[trigger] r.trades_of(c) == Seq::<TradeView>::empty(),
            forall|c: Seq<char>| #[trigger] r.book_at(c) is None,
            forall|c: Seq<char>| #[trigger] r.candles_of(c) == Seq::<CandleView>::empty(),
    {
        let r = RollingStore {
            mids: Vec::new(),
            trades: Vec::new(),
            books: Vec::new(),
            candles: Vec::new(),
            max_trades,
            max_candles,
        };
        assert(r.mids_view() =~= Seq::<(Seq<char>, Seq<char>)>::empty());
        r
    }

    /// Replaces the whole mid-price table.
    pub fn replace_mids(&mut self, table: Vec<(String, String)>)
        requires
            old(self).wf(),
        ensures
            final(self).wf(),
            final(self).mids_view() == pairs_view(table@),
            final(self).trade_cap() == old(self).trade_cap(),
            final(self).candle_cap() == old(self).candle_cap(),
            forall|c: Seq<char>| #[trigger] final(self).trades_of(c) == old(self).trades_of(c),
            forall|c: Seq<char>| #[trigger] final(self).book_at(c) == old(self).book_at(c),
            forall|c: Seq<char>| #[trigger] final(self).candles_of(c) == old(self).candles_of(c),
    {
        self.mids = table;
    }

    /// Appends one trade to its instrument's history; once the history exceeds
    /// its bound the oldest trade leaves.
    pub fn append_trade(&mut self, t: TradeData)
        requires
            old(self).wf(),
        ensures
            final(self).wf(),
            forall|c: Seq<char>| #[trigger] final(self).trades_of(c) == if c == t.coin@ {
                keep_last(old(self).trades_of(c).push(t@), old(self).trade_cap())
            } else {
                old(self).trades_of(c)
            },
            final(self).mids_view() == old(self).mids_view(),
            final(self).trade_cap() == old(self).trade_cap(),
            final(self).candle_cap() == old(self).candle_cap(),
            forall|c: Seq<char>| #[trigger] final(self).book_at(c) == old(self).book_at(c),
            forall|c: Seq<char>| #[trigger] final(self).candles_of(c) == old(self).candles_of(c),
    {
        let ghost tv = t@;
        let ghost key = t.coin@;
        let ghost pre = self.trades@;
        match find_key(&self.trades, t.coin.as_str()) {
            Some(i) => {
                let (k, mut v) = self.trades.remove(i);
                assert(pre[i as int].1@.len() <= self.max_trades);
                push_bounded(&mut v, t, self.max_trades);
                self.trades.insert(i, (k, v));
                proof {
                    assert(self.trades@ =~= pre.update(i as int, (pre[i as int].0, v)));
                    lemma_update(pre, i as int, v);
                    crate::keyed::lemma_value_at_index(pre, i as int);
                    assert forall|j: int| 0 <= j < self.trades@.len() implies #[trigger] self.trades@[j].1@.len() <= self.max_trades by {
                        if j != i {
                            assert(self.trades@[j] == pre[j]);
                        }
                    }
                }
            },
            None => {
                let k = t.coin.clone();
                let mut v: Vec<TradeData> = Vec::new();
                assert(trades_view(v@) =~= Seq::<TradeView>::empty());
                push_bounded(&mut v, t, self.max_trades);
                self.trades.push((k, v));
                proof {
                    lemma_push(pre, k, v);
                    assert forall|j: int| 0 <= j < self.trades@.len() implies #[trigger] self.trades@[j].1@.len() <= self.max_trades by {
                        if j < pre.len() {
                            assert(self.trades@[j] == pre[j]);
                        }
                    }
                }
            },
        }
    }
    /// Appends trades in arrival order, each to its own instrument's history.
    pub fn append_trades(&mut self, trades: Vec<TradeData>)
        requires
            old(self).wf(),
        ensures
            final(self).wf(),
            forall|c: Seq<char>| #[trigger] final(self).trades_of(c) == keep_last(
                old(self).trades_of(c) + coin_trades(trades_view(trades@), c),
                old(self).trade_cap(),
            ),
            final(self).mids_view() == old(self).mids_view(),
            final(self).trade_cap() == old(self).trade_cap(),
            final(self).candle_cap() == old(self).candle_cap(),
            forall|c: Seq<char>| #[trigger] final(self).book_at(c) == old(self).book_at(c),
            forall|c: Seq<char>| #[trigger] final(self).candles_of(c) == old(self).candles_of(c),
    {
        let ghost all = trades_view(trades@);
        let ghost n = trades@.len();
        let mut rest = trades;
        let ghost mut k: int = 0;
        assert forall|c: Seq<char>| #[trigger] self.trades_of(c) == keep_last(
            old(self).trades_of(c) + coin_trades(all.subrange(0, 0), c),
            old(self).trade_cap(),
        ) by {
            assert(old(self).trades_of(c) + coin_trades(all.subrange(0, 0), c) =~= old(self).trades_of(c));
            self.lemma_bounded(c);
        }
        while rest.len() > 0
            invariant
                self.wf(),
                0 <= k <= n,
                all.len() == n,
                trades_view(rest@) == all.subrange(k, n as int),
                forall|c: Seq<char>| #[trigger] self.trades_of(c) == keep_last(
                    old(self).trades_of(c) + coin_trades(all.subrange(0, k), c),
                    old(self).trade_cap(),
                ),
                self.mids_view() == old(self).mids_view(),
                self.trade_cap() == old(self).trade_cap(),
                self.candle_cap() == old(self).candle_cap(),
                forall|c: Seq<char>| #[trigger] self.book_at(c) == old(self).book_at(c),
                forall|c: Seq<char>| #[trigger] self.candles_of(c) == old(self).candles_of(c),
            decreases rest.len(),
        {
            let ghost before = rest@;
            let t = rest.remove(0);
            let ghost tv = t@;
            assert(trades_view(before).len() == before.len());
            assert(k < n);
            assert(tv == all[k]) by {
                assert(trades_view(before)[0] == before[0]@);
                assert(trades_view(before)[0] == all.subrange(k, n as int)[0]);
            }
            assert(trades_view(rest@) =~= all.subrange(k + 1, n as int)) by {
                assert(rest@ =~= before.remove(0));
                assert(trades_view(rest@) =~= trades_view(before).remove(0));
                assert(all.subrange(k, n as int).remove(0) =~= all.subrange(k + 1, n as int));
            }
            self.append_trade(t);
            proof {
                let pre = all.subrange(0, k);
                let post = all.subrange(0, k + 1);
                assert(post.drop_last() =~= pre);
                assert(post.last() == tv);
                assert forall|c: Seq<char>| #[trigger] self.trades_of(c) == keep_last(
                    old(self).trades_of(c) + coin_trades(post, c),
                    old(self).trade_cap(),
                ) by {
                    let a = old(self).trades_of(c) + coin_trades(pre, c);
                    if c == tv.coin {
                        lemma_keep_last_twice(a, tv, old(self).trade_cap());
                        assert(a.push(tv) =~= old(self).trades_of(c) + coin_trades(post, c));
                    } else {
                        assert(coin_trades(post, c) == coin_trades(pre, c));
                    }
                }
                k = k + 1;
            }
        }
        assert(all.subrange(0, n as int) =~= all);
    }

    /// Stores a book snapshot in place of the instrument's previous one.
    pub fn replace_book(&mut self, book: WsBook)
        requires
            old(self).wf(),
        ensures
            final(self).wf(),
            forall|c: Seq<char>| #[trigger] final(self).book_at(c) == if c == book.coin@ {
                Some(book@)
            } else {
                old(self).book_at(c)
            },
            final(self).mids_view() == old(self).mids_view(),
            final(self).trade_cap() == old(self).trade_cap(),
            final(self).candle_cap() == old(self).candle_cap(),
            forall|c: Seq<char>| #[trigger] final(self).trades_of(c) == old(self).trades_of(c),
            forall|c: Seq<char>| #[trigger] final(self).candles_of(c) == old(self).candles_of(c),
    {
        let k = book.coin.clone();
        put(&mut self.books, k, book);
    }

    /// Replaces the candle with the same open time, or appends a new bar; once
    /// the series exceeds its bound the oldest bar leaves.
    pub fn upsert_candle(&mut self, candle: Candle)
        requires
            old(self).wf(),
        ensures
            final(self).wf(),
            forall|c: Seq<char>| #[trigger] final(self).candles_of(c) == if c == candle.coin@ {
                candle_upsert(old(self).candles_of(c), candle@, old(self).candle_cap())
            } else {
                old(self).candles_of(c)
            },
            final(self).mids_view() == old(self).mids_view(),
            final(self).trade_cap() == old(self).trade_cap(),
            final(self).candle_cap() == old(self).candle_cap(),
            forall|c: Seq<char>| #[trigger] final(self).trades_of(c) == old(self).trades_of(c),
            forall|c: Seq<char>| #[trigger] final(self).book_at(c) == old(self).book_at(c),
    {
        let ghost pre = self.candles@;
        match find_key(&self.candles, candle.coin.as_str()) {
            Some(i) => {
                let (k, mut v) = self.candles.remove(i);
                assert(pre[i as int].1@.len() <= self.max_candles);
                assert(open_times_unique(candles_view(pre[i as int].1@)));
                upsert_into(&mut v, candle, self.max_candles);
                self.candles.insert(i, (k, v));
                proof {
                    assert(self.candles@ =~= pre.update(i as int, (pre[i as int].0, v)));
                    lemma_update(pre, i as int, v);
                    lemma_value_at_index(pre, i as int);
                    assert forall|j: int| 0 <= j < self.candles@.len() implies #[trigger] self.candles@[j].1@.len() <= self.max_candles by {
                        if j != i {
                            assert(self.candles@[j] == pre[j]);
                        }
                    }
                    assert forall|j: int| 0 <= j < self.candles@.len() implies open_times_unique(candles_view(#[trigger] self.candles@[j].1@)) by {
                        if j != i {
                            assert(self.candles@[j] == pre[j]);
                        }
                    }
                }
            },
            None => {
                let k = candle.coin.clone();
                let mut v: Vec<Candle> = Vec::new();
                assert(candles_view(v@) =~= Seq::<CandleView>::empty());
                upsert_into(&mut v, candle, self.max_candles);
                self.candles.push((k, v));
                proof {
                    lemma_push(pre, k, v);
                    assert forall|j: int| 0 <= j < self.candles@.len() implies #[trigger] self.candles@[j].1@.len() <= self.max_candles by {
                        if j < pre.len() {
                            assert(self.candles@[j] == pre[j]);
                        }
                    }
                    assert forall|j: int| 0 <= j < self.candles@.len() implies open_times_unique(candles_view(#[trigger] self.candles@[j].1@)) by {
                        if j < pre.len() {
                            assert(self.candles@[j] == pre[j]);
                        }
                    }
                }
            },
        }
    }
    /// Routes one decoded event to its container; a pong or an unknown channel
    /// changes nothing.
    pub fn apply(&mut self, event: FeedEvent)
        requires
            old(self).wf(),
        ensures
            final(self).wf(),
            applied(*old(self), *final(self), event@),
    {
        match event {
            FeedEvent::Mids(table) => self.replace_mids(table),
            FeedEvent::Trades(trades, _) => self.append_trades(trades),
            FeedEvent::Book(book) => self.replace_book(book),
            FeedEvent::Candle(candle) => self.upsert_candle(candle),
            FeedEvent::Pong => {},
            FeedEvent::Unknown(_) => {},
        }
    }

    /// The latest mid price of an instrument: the first entry under its name.
    pub fn mid(&self, coin: &str) -> (r: Option<&String>)
        ensures
            r matches Some(p) ==> mid_lookup(self.mids_view(), coin@) == Some(p@),
            r is None ==> mid_lookup(self.mids_view(), coin@) is None,
    {
        let mut i: usize = 0;
        let ghost all = self.mids_view();
        assert(all.subrange(0, all.len() as int) =~= all);
        while i < self.mids.len()
            invariant
                i <= self.mids@.len(),
                all == pairs_view(self.mids@),
                mid_lookup(all, coin@) == mid_lookup(all.subrange(i as int, all.len() as int), coin@),
            decreases self.mids.len() - i,
        {
            let ghost rest = all.subrange(i as int, all.len() as int);
            assert(rest.drop_first() =~= all.subrange(i + 1, all.len() as int));
            assert(rest[0] == (self.mids@[i as int].0@, self.mids@[i as int].1@));
            if crate::json::same_text(self.mids[i].0.as_str(), coin) {
                return Some(&self.mids[i].1);
            }
            i = i + 1;
        }
        None
    }

    /// The trade history of an instrument, oldest first.
    pub fn trades(&self, coin: &str) -> (r: Option<&Vec<TradeData>>)
        requires
            self.wf(),
        ensures
            r matches Some(v) ==> trades_view(v@) == self.trades_of(coin@),
            r is None ==> self.trades_of(coin@) == Seq::<TradeView>::empty(),
    {
        match find_key(&self.trades, coin) {
            Some(i) => {
                proof {
                    lemma_value_at_index(self.trades@, i as int);
                }
                Some(&self.trades[i].1)
            },
            None => None,
        }
    }

    /// The latest book of an instrument.
    pub fn book(&self, coin: &str) -> (r: Option<&WsBook>)
        requires
            self.wf(),
        ensures
            r matches Some(b) ==> self.book_at(coin@) == Some(b@),
            r is None ==> self.book_at(coin@) is None,
    {
        match find_key(&self.books, coin) {
            Some(i) => {
                proof {
                    lemma_value_at_index(self.books@, i as int);
                }
                Some(&self.books[i].1)
            },
            None => None,
        }
    }

    /// The candle series of an instrument, oldest first; its last bar is still open.
    pub fn candles(&self, coin: &str) -> (r: Option<&Vec<Candle>>)
        requires
            self.wf(),
        ensures
            r matches Some(v) ==> candles_view(v@) == self.candles_of(coin@),
            r is None ==> self.candles_of(coin@) == Seq::<CandleView>::empty(),
    {
        match find_key(&self.candles, coin) {
            Some(i) => {
                proof {
                    lemma_value_at_index(self.candles@, i as int);
                }
                Some(&self.candles[i].1)
            },
            None => None,
        }
    }

    pub fn max_trades(&self) -> (r: usize)
        ensures
            r == self.trade_cap(),
    {
        self.max_trades
    }

    pub fn max_candles(&self) -> (r: usize)
        ensures
            r == self.candle_cap(),
    {
        self.max_candles
    }
}

} // verus!
