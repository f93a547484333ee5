//! Writing candles and trades to the Parquet store: rows are grouped into
//! their symbol/day partitions, written in partition order, and each row is
//! written only if its dedup key — `(exchange, interval, open time)` for a
//! candle, `(exchange, trade id)` for a trade — is not yet in the
//! partition. Reading and writing the files is the caller's.
use vstd::prelude::*;

use crate::interval::interval_text;
use crate::model::{Kline, Trade};
use crate::order::{key_lt, lemma_key_lt, text_le};
use crate::time::day_of_millis_spec;

verus! {

/// The key of a row's partition: its symbol and its calendar day.
pub open spec fn partition_key_view(k: (String, i64)) -> (Seq<char>, int) {
    (k.0@, k.1 as int)
}

/// The partition keys of candles: symbol and day of the open time.
pub fn kline_partition_keys(klines: &Vec<Kline>) -> (r: Vec<(String, i64)>)
    ensures
        r@.len() == klines@.len(),
        forall|i: int| 0 <= i < r@.len() ==> partition_key_view(#[trigger] r@[i]) == (
            klines@[i].symbol@,
            day_of_millis_spec(klines@[i].open_time as int),
        ),
{
    let mut out: Vec<(String, i64)> = Vec::new();
    for i in 0..klines.len()
        invariant
            out@.len() == i,
            forall|j: int| 0 <= j < i ==> partition_key_view(#[trigger] out@[j]) == (
                klines@[j].symbol@,
                day_of_millis_spec(klines@[j].open_time as int),
            ),
    {
        let k = &klines[i];
        out.push((k.symbol.to_string(), crate::time::day_of_millis(k.open_time)));
    }
    out
}

/// The partition keys of trades: symbol and day of the trade.
pub fn trade_partition_keys(trades: &Vec<Trade>) -> (r: Vec<(String, i64)>)
    ensures
        r@.len() == trades@.len(),
        forall|i: int| 0 <= i < r@.len() ==> partition_key_view(#[trigger] r@[i]) == (
            trades@[i].symbol@,
            day_of_millis_spec(trades@[i].ts as int),
        ),
{
    let mut out: Vec<(String, i64)> = Vec::new();
    for i in 0..trades.len()
        invariant
            out@.len() == i,
            forall|j: int| 0 <= j < i ==> partition_key_view(#[trigger] out@[j]) == (
                trades@[j].symbol@,
                day_of_millis_spec(trades@[j].ts as int),
            ),
    {
        let t = &trades[i];
        out.push((t.symbol.to_string(), crate::time::day_of_millis(t.ts)));
    }
    out
}

/// The rows of one partition: positions in the written batch.
#[derive(Debug, Clone)]
pub struct PartitionGroup {
    pub symbol: String,
    pub day: i64,
    pub members: Vec<usize>,
}

/// The key of a group.
pub open spec fn group_key(g: PartitionGroup) -> (Seq<char>, int) {
    (g.symbol@, g.day as int)
}

/// The positions, in order, of the rows whose key is `key`.
pub open spec fn positions_with(keys: Seq<(Seq<char>, int)>, key: (Seq<char>, int)) -> Seq<usize>
    decreases keys.len(),
{
    if keys.len() == 0 {
        Seq::empty()
    } else if keys.last() == key {
        positions_with(keys.drop_last(), key).push((keys.len() - 1) as usize)
    } else {
        positions_with(keys.drop_last(), key)
    }
}

/// The views of partition keys.
pub open spec fn keys_view(keys: Seq<(String, i64)>) -> Seq<(Seq<char>, int)> {
    keys.map_values(|k: (String, i64)| partition_key_view(k))
}

/// Whether `key` is that of one of `groups`.
pub open spec fn has_group(groups: Seq<PartitionGroup>, key: (Seq<char>, int)) -> bool {
    exists|g: int| 0 <= g < groups.len() && group_key(groups[g]) == key
}

/// Rows grouped by partition, the groups in partition order (symbol text,
/// then day), each holding the positions of its rows in batch order.
pub fn partition_groups(keys: &Vec<(String, i64)>) -> (r: Vec<PartitionGroup>)
    ensures
        forall|a: int, b: int| 0 <= a < b < r@.len() ==> key_lt(group_key(#[trigger] r@[a]), group_key(#[trigger] r@[b])),
        forall|g: int| 0 <= g < r@.len() ==> (#[trigger] r@[g]).members@ == positions_with(keys_view(keys@), group_key(r@[g])),
        forall|i: int| 0 <= i < keys@.len() ==> has_group(r@, #[trigger] keys_view(keys@)[i]),
{
    let ghost all = keys_view(keys@);
    let mut groups: Vec<PartitionGroup> = Vec::new();
    for i in 0..keys.len()
        invariant
            all == keys_view(keys@),
            forall|a: int, b: int| 0 <= a < b < groups@.len() ==> key_lt(group_key(#[trigger] groups@[a]), group_key(#[trigger] groups@[b])),
            forall|g: int| 0 <= g < groups@.len() ==> (#[trigger] groups@[g]).members@ == positions_with(all.subrange(0, i as int), group_key(groups@[g])),
            forall|j: int| 0 <= j < i ==> has_group(groups@, #[trigger] all[j]),
            forall|g: int| 0 <= g < groups@.len() ==> (#[trigger] groups@[g]).members@.len() > 0,
    {
        let ghost pre = all.subrange(0, i as int);
        let ghost next = all.subrange(0, i + 1);
        let ghost key = all[i as int];
        proof {
            assert(next.drop_last() == pre);
            assert(next.last() == key);
            assert(key == (keys@[i as int].0@, keys@[i as int].1 as int));
        }
        let sym = &keys[i].0;
        let day = keys[i].1;
        let mut p: usize = 0;
        while p < groups.len() && group_before(&groups[p], sym.as_str(), day)
            invariant
                p <= groups@.len(),
                key == (sym@, day as int),
                forall|j: int| 0 <= j < p ==> key_lt(group_key(#[trigger] groups@[j]), key),
            decreases groups@.len() - p,
        {
            p = p + 1;
        }
        let ghost before = groups@;
        if p < groups.len() && crate::interval::text_eq(groups[p].symbol.as_str(), sym.as_str()) && groups[p].day == day {
            let mut g = groups.remove(p);
            g.members.push(i);
            proof {
                assert(group_key(g) == key);
            }
            groups.insert(p, g);
            proof {
                assert(groups@ == before.update(p as int, g));
                assert forall|gg: int| 0 <= gg < groups@.len() implies (#[trigger] groups@[gg]).members@ == positions_with(
                    next,
                    group_key(groups@[gg]),
                ) by {
                    if gg != p {
                        assert(groups@[gg] == before[gg]);
                        assert(group_key(before[gg]) != key) by {
                            if gg < p {
                                lemma_key_lt(group_key(before[gg]), key, key);
                            } else {
                                lemma_key_lt(key, group_key(before[gg]), key);
                                lemma_key_lt(group_key(before[p as int]), group_key(before[gg]), key);
                            }
                        }
                    }
                }
                assert forall|a: int, b: int| 0 <= a < b < groups@.len() implies key_lt(
                    group_key(#[trigger] groups@[a]),
                    group_key(#[trigger] groups@[b]),
                ) by {
                    assert(group_key(groups@[a]) == group_key(before[a]));
                    assert(group_key(groups@[b]) == group_key(before[b]));
                }
                assert forall|j: int| 0 <= j < i + 1 implies has_group(groups@, #[trigger] all[j]) by {
                    if j < i {
                        assert(has_group(before, all[j]));
                        let w = choose|w: int| 0 <= w < before.len() && group_key(before[w]) == all[j];
                        assert(group_key(groups@[w]) == group_key(before[w]));
                    } else {
                        assert(group_key(groups@[p as int]) == all[j]);
                    }
                }
            }
        } else {
            let mut members: Vec<usize> = Vec::new();
            members.push(i);
            let g = PartitionGroup { symbol: sym.clone(), day, members };
            proof {
                assert(group_key(g) == key);
                if p < before.len() {
                    assert(group_key(before[p as int]) != key);
                    lemma_key_lt(key, group_key(before[p as int]), key);
                }
                assert forall|gg: int| 0 <= gg < before.len() implies group_key(#[trigger] before[gg]) != key by {
                    if gg < p {
                        lemma_key_lt(group_key(before[gg]), key, key);
                    } else {
                        lemma_key_lt(key, group_key(before[p as int]), group_key(before[gg]));
                        lemma_key_lt(group_key(before[gg]), key, key);
                    }
                }
                assert forall|j: int| 0 <= j < i implies all[j] != key by {
                    assert(has_group(before, all[j]));
                    let w = choose|w: int| 0 <= w < before.len() && group_key(before[w]) == all[j];
                    assert(group_key(before[w]) != key);
                }
                lemma_positions_absent(pre, key);
                assert(positions_with(next, key) == seq![i as usize]);
            }
            groups.insert(p, g);
            proof {
                assert(groups@ == before.insert(p as int, g));
                assert forall|gg: int| 0 <= gg < groups@.len() implies (#[trigger] groups@[gg]).members@ == positions_with(
                    next,
                    group_key(groups@[gg]),
                ) by {
                    if gg < p {
                        assert(groups@[gg] == before[gg]);
                        assert(group_key(before[gg]) != key);
                    } else if gg > p {
                        assert(groups@[gg] == before[gg - 1]);
                        assert(group_key(before[gg - 1]) != key);
                    } else {
                        assert(g.members@ == seq![i as usize]);
                    }
                }
                assert forall|gg: int| 0 <= gg < groups@.len() implies (#[trigger] groups@[gg]).members@.len() > 0 by {
                    if gg < p {
                        assert(groups@[gg] == before[gg]);
                    } else if gg > p {
                        assert(groups@[gg] == before[gg - 1]);
                    }
                }
                assert forall|a: int, b: int| 0 <= a < b < groups@.len() implies key_lt(
                    group_key(#[trigger] groups@[a]),
                    group_key(#[trigger] groups@[b]),
                ) by {
                    if a < p && b > p {
                        assert(groups@[a] == before[a]);
                        assert(groups@[b] == before[b - 1]);
                        lemma_key_lt(group_key(before[a]), key, group_key(before[b - 1]));
                        assert(key_lt(key, group_key(before[b - 1]))) by {
                            if b - 1 > p {
                                lemma_key_lt(key, group_key(before[p as int]), group_key(before[b - 1]));
                            }
                        }
                    } else if a == p {
                        assert(groups@[b] == before[b - 1]);
                        if b - 1 > p {
                            lemma_key_lt(key, group_key(before[p as int]), group_key(before[b - 1]));
                        }
                    } else if b == p {
                        assert(groups@[a] == before[a]);
                    } else if a > p {
                        assert(groups@[a] == before[a - 1]);
                        assert(groups@[b] == before[b - 1]);
                    } else {
                        assert(groups@[a] == before[a]);
                        assert(groups@[b] == before[b]);
                    }
                }
                assert forall|j: int| 0 <= j < i + 1 implies has_group(groups@, #[trigger] all[j]) by {
                    if j < i {
                        assert(has_group(before, all[j]));
                        let w = choose|w: int| 0 <= w < before.len() && group_key(before[w]) == all[j];
                        if w < p {
                            assert(groups@[w] == before[w]);
                        } else {
                            assert(groups@[w + 1] == before[w]);
                        }
                    } else {
                        assert(group_key(groups@[p as int]) == all[j]);
                    }
                }
            }
        }
    }
    proof {
        assert(all.subrange(0, keys@.len() as int) == all);
    }
    groups
}

proof fn lemma_positions_absent(keys: Seq<(Seq<char>, int)>, key: (Seq<char>, int))
    requires
        forall|j: int| 0 <= j < keys.len() ==> keys[j] != key,
    ensures
        positions_with(keys, key) == Seq::<usize>::empty(),
    decreases keys.len(),
{
    if keys.len() > 0 {
        let rest = keys.drop_last();
        assert forall|j: int| 0 <= j < rest.len() implies rest[j] != key by {
            assert(rest[j] == keys[j]);
        }
        lemma_positions_absent(rest, key);
        assert(keys[keys.len() - 1] != key);
    }
}

/// Whether a group's key comes before `(symbol, day)`.
fn group_before(g: &PartitionGroup, symbol: &str, day: i64) -> (r: bool)
    ensures
        r == key_lt(group_key(*g), (symbol@, day as int)),
{
    if crate::interval::text_eq(g.symbol.as_str(), symbol) {
        g.day < day
    } else {
        crate::order::text_le_exec(g.symbol.as_str(), symbol)
    }
}

/// The dedup key of a candle: exchange, interval and open time in
/// microseconds.
pub open spec fn kline_key(k: Kline) -> (Seq<char>, Seq<char>, int) {
    (k.exchange@, interval_text(k.interval), k.open_time * 1000)
}

/// The dedup key of a trade: exchange and trade id.
pub open spec fn trade_key(t: Trade) -> (Seq<char>, int) {
    (t.exchange@, t.trade_id as int)
}

/// The set of candle dedup keys already in one partition.
pub struct KlineKeys {
    keys: Vec<(String, String, i128)>,
}

/// The view of a stored candle key.
pub open spec fn kline_key_view(k: (String, String, i128)) -> (Seq<char>, Seq<char>, int) {
    (k.0@, k.1@, k.2 as int)
}

impl KlineKeys {
    /// The keys held.
    pub closed spec fn contents(&self) -> Set<(Seq<char>, Seq<char>, int)> {
        self.keys@.map_values(|k: (String, String, i128)| kline_key_view(k)).to_set()
    }

    /// No key.
    pub fn new() -> (r: KlineKeys)
        ensures
            r.contents() == Set::<(Seq<char>, Seq<char>, int)>::empty(),
    {
        let r = KlineKeys { keys: Vec::new() };
        proof {
            assert(r.keys@.map_values(|k: (String, String, i128)| kline_key_view(k)) =~= Seq::empty());
            assert(r.contents() =~= Set::<(Seq<char>, Seq<char>, int)>::empty());
        }
        r
    }

    /// Whether the key `(exchange, interval, open time in microseconds)` is
    /// held.
    pub fn contains(&self, exchange: &str, interval: &str, open_time_us: i128) -> (r: bool)
        ensures
            r == self.contents().contains((exchange@, interval@, open_time_us as int)),
    {
        let ghost v = self.keys@.map_values(|k: (String, String, i128)| kline_key_view(k));
        for i in 0..self.keys.len()
            invariant
                v == self.keys@.map_values(|k: (String, String, i128)| kline_key_view(k)),
                forall|j: int| 0 <= j < i ==> v[j] != (exchange@, interval@, open_time_us as int),
        {
            let k = &self.keys[i];
            if crate::interval::text_eq(k.0.as_str(), exchange) && crate::interval::text_eq(k.1.as_str(), interval)
                && k.2 == open_time_us {
                proof {
                    assert(v[i as int] == (exchange@, interval@, open_time_us as int));
                    assert(v.contains(v[i as int]));
                }
                return true;
            }
        }
        proof {
            if v.to_set().contains((exchange@, interval@, open_time_us as int)) {
                assert(v.contains((exchange@, interval@, open_time_us as int)));
            }
        }
        false
    }

    /// Adds a key; `true` when it was not held before (std
    /// `HashSet::insert`).
    pub fn insert(&mut self, exchange: &str, interval: &str, open_time_us: i128) -> (r: bool)
        ensures
            r == !old(self).contents().contains((exchange@, interval@, open_time_us as int)),
            final(self).contents() == old(self).contents().insert((exchange@, interval@, open_time_us as int)),
    {
        if self.contains(exchange, interval, open_time_us) {
            proof {
                assert(self.contents().insert((exchange@, interval@, open_time_us as int)) =~= self.contents());
            }
            return false;
        }
        let ghost before = self.keys@.map_values(|k: (String, String, i128)| kline_key_view(k));
        self.keys.push((crate::text::owned(exchange), crate::text::owned(interval), open_time_us));
        proof {
            let after = self.keys@.map_values(|k: (String, String, i128)| kline_key_view(k));
            assert(after == before.push((exchange@, interval@, open_time_us as int)));
            before.lemma_push_to_set_commute((exchange@, interval@, open_time_us as int));
        }
        true
    }
}

/// The candles of `members` a write keeps, and the keys held afterwards:
/// each candle is kept when its key is not yet held, and its key is then
/// held.
pub open spec fn fresh_klines_spec(
    klines: Seq<Kline>,
    members: Seq<usize>,
    held: Set<(Seq<char>, Seq<char>, int)>,
) -> (Seq<usize>, Set<(Seq<char>, Seq<char>, int)>)
    decreases members.len(),
{
    if members.len() == 0 {
        (Seq::empty(), held)
    } else {
        let (kept, seen) = fresh_klines_spec(klines, members.drop_last(), held);
        let m = members.last();
        let key = kline_key(klines[m as int]);
        if seen.contains(key) {
            (kept, seen)
        } else {
            (kept.push(m), seen.insert(key))
        }
    }
}

/// The candles among `members` (positions in `klines`) whose dedup key is
/// not held yet, in order; their keys become held, so a key repeated within
/// the batch is kept once.
pub fn fresh_klines(keys: &mut KlineKeys, klines: &Vec<Kline>, members: &Vec<usize>) -> (r: Vec<usize>)
    requires
        forall|i: int| 0 <= i < members@.len() ==> (#[trigger] members@[i]) < klines@.len(),
    ensures
        r@ == fresh_klines_spec(klines@, members@, old(keys).contents()).0,
        final(keys).contents() == fresh_klines_spec(klines@, members@, old(keys).contents()).1,
{
    let ghost held = keys.contents();
    let mut out: Vec<usize> = Vec::new();
    for i in 0..members.len()
        invariant
            forall|j: int| 0 <= j < members@.len() ==> (#[trigger] members@[j]) < klines@.len(),
            out@ == fresh_klines_spec(klines@, members@.subrange(0, i as int), held).0,
            keys.contents() == fresh_klines_spec(klines@, members@.subrange(0, i as int), held).1,
    {
        proof {
            let pre = members@.subrange(0, i + 1);
            assert(pre.drop_last() == members@.subrange(0, i as int));
            assert(pre.last() == members@[i as int]);
        }
        let m = members[i];
        let k = &klines[m];
        let us = k.open_time as i128 * 1000;
        if keys.insert(k.exchange.as_str(), k.interval.as_str(), us) {
            out.push(m);
        }
    }
    proof {
        assert(members@.subrange(0, members@.len() as int) == members@);
    }
    out
}

/// The set of trade dedup keys already in one partition.
pub struct TradeKeys {
    keys: Vec<(String, i64)>,
}

/// The view of a stored trade key.
pub open spec fn trade_key_view(k: (String, i64)) -> (Seq<char>, int) {
    (k.0@, k.1 as int)
}

impl TradeKeys {
    /// The keys held.
    pub closed spec fn contents(&self) -> Set<(Seq<char>, int)> {
        self.keys@.map_values(|k: (String, i64)| trade_key_view(k)).to_set()
    }

    /// No key.
    pub fn new() -> (r: TradeKeys)
        ensures
            r.contents() == Set::<(Seq<char>, int)>::empty(),
    {
        let r = TradeKeys { keys: Vec::new() };
        proof {
            assert(r.keys@.map_values(|k: (String, i64)| trade_key_view(k)) =~= Seq::empty());
            assert(r.contents() =~= Set::<(Seq<char>, int)>::empty());
        }
        r
    }

    /// Whether the key `(exchange, trade id)` is held.
    pub fn contains(&self, exchange: &str, trade_id: i64) -> (r: bool)
        ensures
            r == self.contents().contains((exchange@, trade_id as int)),
    {
        let ghost v = self.keys@.map_values(|k: (String, i64)| trade_key_view(k));
        for i in 0..self.keys.len()
            invariant
                v == self.keys@.map_values(|k: (String, i64)| trade_key_view(k)),
                forall|j: int| 0 <= j < i ==> v[j] != (exchange@, trade_id as int),
        {
            let k = &self.keys[i];
            if crate::interval::text_eq(k.0.as_str(), exchange) && k.1 == trade_id {
                proof {
                    assert(v[i as int] == (exchange@, trade_id as int));
                    assert(v.contains(v[i as int]));
                }
                return true;
            }
        }
        proof {
            if v.to_set().contains((exchange@, trade_id as int)) {
                assert(v.contains((exchange@, trade_id as int)));
            }
        }
        false
    }

    /// Adds a key; `true` when it was not held before (std
    /// `HashSet::insert`).
    pub fn insert(&mut self, exchange: &str, trade_id: i64) -> (r: bool)
        ensures
            r == !old(self).contents().contains((exchange@, trade_id as int)),
            final(self).contents() == old(self).contents().insert((exchange@, trade_id as int)),
    {
        if self.contains(exchange, trade_id) {
            proof {
                assert(self.contents().insert((exchange@, trade_id as int)) =~= self.contents());
            }
            return false;
        }
        let ghost before = self.keys@.map_values(|k: (String, i64)| trade_key_view(k));
        self.keys.push((crate::text::owned(exchange), trade_id));
        proof {
            let after = self.keys@.map_values(|k: (String, i64)| trade_key_view(k));
            assert(after == before.push((exchange@, trade_id as int)));
            before.lemma_push_to_set_commute((exchange@, trade_id as int));
        }
        true
    }
}

/// The trades of `members` a write keeps, and the keys held afterwards.
pub open spec fn fresh_trades_spec(
    trades: Seq<Trade>,
    members: Seq<usize>,
    held: Set<(Seq<char>, int)>,
) -> (Seq<usize>, Set<(Seq<char>, int)>)
    decreases members.len(),
{
    if members.len() == 0 {
        (Seq::empty(), held)
    } else {
        let (kept, seen) = fresh_trades_spec(trades, members.drop_last(), held);
        let m = members.last();
        let key = trade_key(trades[m as int]);
        if seen.contains(key) {
            (kept, seen)
        } else {
            (kept.push(m), seen.insert(key))
        }
    }
}

/// The trades among `members` (positions in `trades`) whose dedup key is
/// not held yet, in order; their keys become held.
pub fn fresh_trades(keys: &mut TradeKeys, trades: &Vec<Trade>, members: &Vec<usize>) -> (r: Vec<usize>)
    requires
        forall|i: int| 0 <= i < members@.len() ==> (#[trigger] members@[i]) < trades@.len(),
    ensures
        r@ == fresh_trades_spec(trades@, members@, old(keys).contents()).0,
        final(keys).contents() == fresh_trades_spec(trades@, members@, old(keys).contents()).1,
{
    let ghost held = keys.contents();
    let mut out: Vec<usize> = Vec::new();
    for i in 0..members.len()
        invariant
            forall|j: int| 0 <= j < members@.len() ==> (#[trigger] members@[j]) < trades@.len(),
            out@ == fresh_trades_spec(trades@, members@.subrange(0, i as int), held).0,
            keys.contents() == fresh_trades_spec(trades@, members@.subrange(0, i as int), held).1,
    {
        proof {
            let pre = members@.subrange(0, i + 1);
            assert(pre.drop_last() == members@.subrange(0, i as int));
            assert(pre.last() == members@[i as int]);
        }
        let m = members[i];
        let t = &trades[m];
        if keys.insert(t.exchange.as_str(), t.trade_id) {
            out.push(m);
        }
    }
    proof {
        assert(members@.subrange(0, members@.len() as int) == members@);
    }
    out
}

proof fn lemma_fresh_klines_holds(klines: Seq<Kline>, members: Seq<usize>, held: Set<(Seq<char>, Seq<char>, int)>)
    ensures
        held.subset_of(fresh_klines_spec(klines, members, held).1),
        forall|i: int| 0 <= i < members.len() ==> fresh_klines_spec(klines, members, held).1.contains(
            kline_key(klines[#[trigger] members[i] as int]),
        ),
    decreases members.len(),
{
    if members.len() > 0 {
        let rest = members.drop_last();
        lemma_fresh_klines_holds(klines, rest, held);
        assert forall|i: int| 0 <= i < members.len() implies fresh_klines_spec(klines, members, held).1.contains(
            kline_key(klines[#[trigger] members[i] as int]),
        ) by {
            if i < members.len() - 1 {
                assert(members[i] == rest[i]);
            }
        }
    }
}

proof fn lemma_fresh_klines_none(klines: Seq<Kline>, members: Seq<usize>, held: Set<(Seq<char>, Seq<char>, int)>)
    requires
        forall|i: int| 0 <= i < members.len() ==> held.contains(kline_key(klines[#[trigger] members[i] as int])),
    ensures
        fresh_klines_spec(klines, members, held) == (Seq::<usize>::empty(), held),
    decreases members.len(),
{
    if members.len() > 0 {
        let rest = members.drop_last();
        assert forall|i: int| 0 <= i < rest.len() implies held.contains(kline_key(klines[#[trigger] rest[i] as int])) by {
            assert(rest[i] == members[i]);
        }
        lemma_fresh_klines_none(klines, rest, held);
        assert(held.contains(kline_key(klines[members[members.len() - 1] as int])));
    }
}

/// Writing the same candles again writes none of them: after a write every
/// key of the batch is held.
pub proof fn lemma_klines_written_once(klines: Seq<Kline>, members: Seq<usize>, held: Set<(Seq<char>, Seq<char>, int)>)
    ensures
        ({
            let after = fresh_klines_spec(klines, members, held).1;
            fresh_klines_spec(klines, members, after) == (Seq::<usize>::empty(), after)
        }),
{
    lemma_fresh_klines_holds(klines, members, held);
    lemma_fresh_klines_none(klines, members, fresh_klines_spec(klines, members, held).1);
}

proof fn lemma_fresh_trades_holds(trades: Seq<Trade>, members: Seq<usize>, held: Set<(Seq<char>, int)>)
    ensures
        held.subset_of(fresh_trades_spec(trades, members, held).1),
        forall|i: int| 0 <= i < members.len() ==> fresh_trades_spec(trades, members, held).1.contains(
            trade_key(trades[#[trigger] members[i] as int]),
        ),
    decreases members.len(),
{
    if members.len() > 0 {
        let rest = members.drop_last();
        lemma_fresh_trades_holds(trades, rest, held);
        assert forall|i: int| 0 <= i < members.len() implies fresh_trades_spec(trades, members, held).1.contains(
            trade_key(trades[#[trigger] members[i] as int]),
        ) by {
            if i < members.len() - 1 {
                assert(members[i] == rest[i]);
            }
        }
    }
}

proof fn lemma_fresh_trades_none(trades: Seq<Trade>, members: Seq<usize>, held: Set<(Seq<char>, int)>)
    requires
        forall|i: int| 0 <= i < members.len() ==> held.contains(trade_key(trades[#[trigger] members[i] as int])),
    ensures
        fresh_trades_spec(trades, members, held) == (Seq::<usize>::empty(), held),
    decreases members.len(),
{
    if members.len() > 0 {
        let rest = members.drop_last();
        assert forall|i: int| 0 <= i < rest.len() implies held.contains(trade_key(trades[#[trigger] rest[i] as int])) by {
            assert(rest[i] == members[i]);
        }
        lemma_fresh_trades_none(trades, rest, held);
        assert(held.contains(trade_key(trades[members[members.len() - 1] as int])));
    }
}

/// Writing the same trades again writes none of them.
pub proof fn lemma_trades_written_once(trades: Seq<Trade>, members: Seq<usize>, held: Set<(Seq<char>, int)>)
    ensures
        ({
            let after = fresh_trades_spec(trades, members, held).1;
            fresh_trades_spec(trades, members, after) == (Seq::<usize>::empty(), after)
        }),
{
    lemma_fresh_trades_holds(trades, members, held);
    lemma_fresh_trades_none(trades, members, fresh_trades_spec(trades, members, held).1);
}

/// What a store's key cache keeps for a partition once a write into it has
/// run: the keys `held` after the batch when the write succeeded; nothing
/// when it failed, so that the next write reads the partition's keys from
/// disk and skips only rows that are there.
pub fn remembered_keys<K>(held: K, written: bool) -> (r: Option<K>)
    ensures
        written ==> r == Some(held),
        !written ==> r is None,
{
    if written {
        Some(held)
    } else {
        None
    }
}

} // verus!
