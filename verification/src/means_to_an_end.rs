use vstd::prelude::*;
use std::collections::BTreeMap;
use core::ops::RangeInclusive;
use vstd::std_specs::iter::IteratorSpec;
use crate::std_order::lemma_i32_keys_ordered;
use crate::std_order::lemma_increasing_i32_keys;

verus! {

broadcast use vstd::std_specs::btree::group_btree_axioms;

/// Price history: a map from timestamp to price.
pub struct Db(BTreeMap<i32, i32>);

impl View for Db {
    type V = Map<i32, i32>;

    closed spec fn view(&self) -> Map<i32, i32> {
        self.0@
    }
}

impl Db {
    /// An empty price history.
    pub fn new() -> (db: Db)
        ensures
            db@ == Map::<i32, i32>::empty(),
    {
        Db(BTreeMap::new())
    }

    /// Records `price` at `timestamp`, replacing any price already recorded there.
    pub fn insert(&mut self, timestamp: i32, price: i32)
        ensures
            final(self)@ == old(self)@.insert(timestamp, price),
    {
        self.0.insert(timestamp, price);
    }
}


/// What the price at `key` adds to a window sum: the price if one is recorded.
pub open spec fn price_at(m: Map<i32, i32>, key: int) -> int {
    if m.contains_key(key as i32) {
        m[key as i32] as int
    } else {
        0
    }
}

/// Sum of the prices recorded at the timestamps `lo..=hi`.
pub open spec fn window_sum(m: Map<i32, i32>, lo: int, hi: int) -> int
    decreases hi + 1 - lo,
{
    if hi < lo {
        0
    } else {
        window_sum(m, lo, hi - 1) + price_at(m, hi)
    }
}

/// Number of timestamps in `lo..=hi` at which a price is recorded.
pub open spec fn window_count(m: Map<i32, i32>, lo: int, hi: int) -> int
    decreases hi + 1 - lo,
{
    if hi < lo {
        0
    } else {
        window_count(m, lo, hi - 1) + if m.contains_key(hi as i32) {
            1int
        } else {
            0int
        }
    }
}

/// Integer division rounding toward zero, as Rust's `/` does.
pub open spec fn div_toward_zero(a: int, b: int) -> int {
    if a >= 0 {
        a / b
    } else {
        -((-a) / b)
    }
}

/// The mean price over the timestamps `lo..=hi`, rounded toward zero,
/// or 0 when no price is recorded there.
pub open spec fn spec_mean(m: Map<i32, i32>, lo: int, hi: int) -> int {
    let count = window_count(m, lo, hi);
    if count == 0 {
        0
    } else {
        div_toward_zero(window_sum(m, lo, hi), count)
    }
}

/// Extending a window over timestamps that hold no price changes neither its
/// sum nor its count.
proof fn lemma_window_skip(m: Map<i32, i32>, lo: int, a: int, b: int)
    requires
        a <= b,
        i32::MIN <= lo,
        b <= i32::MAX,
        forall|x: i32| a < x <= b && lo <= x ==> !m.contains_key(x),
    ensures
        window_sum(m, lo, b) == window_sum(m, lo, a),
        window_count(m, lo, b) == window_count(m, lo, a),
    decreases b - a,
{
    if a < b {
        lemma_window_skip(m, lo, a, b - 1);
        if lo <= b {
            assert(!m.contains_key(b as i32));
        }
    }
}

/// `sum / count` rounded toward zero, for a sum of `count` prices.
fn mean_of(sum: i64, count: i64) -> (res: i32)
    requires
        count > 0,
        -2147483648 * count <= sum <= 2147483647 * count,
    ensures
        res == div_toward_zero(sum as int, count as int),
{
    let q = sum / count;
    proof {
        let n = sum as int;
        let d = count as int;
        if n >= 0 {
            assert(q == n / d);
            assert(n / d <= 2147483647) by (nonlinear_arith)
                requires
                    0 <= n <= 2147483647 * d,
                    d > 0,
            ;
        } else {
            assert(q == -((-n) / d));
            assert((-n) / d <= 2147483648) by (nonlinear_arith)
                requires
                    0 < -n <= 2147483648 * d,
                    d > 0,
            ;
        }
    }
    q as i32
}

impl Db {
    /// The mean price over the timestamps in `range`, rounded toward zero;
    /// 0 when the range is empty or holds no recorded price.
    pub fn mean(&self, range: RangeInclusive<i32>) -> (res: i32)
        ensures
            range@.exhausted || range@.start > range@.end ==> res == 0,
            !range@.exhausted && range@.start <= range@.end ==> res == spec_mean(
                self@,
                range@.start as int,
                range@.end as int,
            ),
    {
        if range.is_empty() {
            return 0;
        }
        let lo: i32 = *range.start();
        let hi: i32 = *range.end();
        let ghost m = self@;
        let mut count: i64 = 0;
        let mut sum: i64 = 0;
        let ghost mut last: int = lo - 1;
        proof {
            lemma_i32_keys_ordered();
        }
        let entries = self.0.iter();
        let ghost s = entries.remaining();
        proof {
            lemma_increasing_i32_keys(s);
        }
        for entry in it: entries
            invariant
                m == self@,
                lo <= hi,
                it.seq() == s,
                forall|i: int, j: int| 0 <= i < j < s.len() ==> *s[i].0 < *s[j].0,
                forall|i: int| 0 <= i < s.len() ==> m.contains_key(*s[i].0) && m[*s[i].0] == *s[i].1,
                forall|k: i32| m.contains_key(k) ==> exists|i: int| 0 <= i < s.len() && *s[i].0 == k,
                it.index() > 0 ==> last == *s[it.index() - 1].0,
                it.index() == 0 ==> last == lo - 1,
                it.index() <= 0x1_0000_0000,
                it.index() > 0 ==> last >= i32::MIN + it.index() - 1,
                0 <= count <= it.index(),
                -2147483648 * count <= sum <= 2147483647 * count,
                count == window_count(m, lo as int, if last < hi { last } else { hi as int }),
                sum == window_sum(m, lo as int, if last < hi { last } else { hi as int }),
        {
            let key: i32 = *entry.0;
            let price: i32 = *entry.1;
            proof {
                let ghost prev = if last < hi { last } else { hi as int };
                let ghost next = if key < hi { key as int } else { hi as int };
                assert forall|x: i32| prev < x <= next - 1 && lo <= x implies !m.contains_key(x) by {
                    if m.contains_key(x) {
                        let j = choose|j: int| 0 <= j < s.len() && *s[j].0 == x;
                        if j < it.index() {
                            if j < it.index() - 1 {
                                assert(*s[j].0 < *s[it.index() - 1].0);
                            }
                        } else if j > it.index() {
                            assert(*s[it.index()].0 < *s[j].0);
                        }
                    }
                }
                if prev <= next - 1 {
                    lemma_window_skip(m, lo as int, prev, next - 1);
                }
            }
            if lo <= key && key <= hi {
                count = count + 1;
                sum = sum + price as i64;
            }
            proof {
                last = key as int;
            }
        }
        proof {
            let prev = if last < hi { last } else { hi as int };
            assert forall|x: i32| prev < x <= hi && lo <= x implies !m.contains_key(x) by {
                if m.contains_key(x) {
                    let j = choose|j: int| 0 <= j < s.len() && *s[j].0 == x;
                    if j < s.len() - 1 {
                        assert(*s[j].0 < *s[s.len() - 1].0);
                    }
                }
            }
            lemma_window_skip(m, lo as int, prev, hi as int);
        }
        if count > 0 {
            mean_of(sum, count)
        } else {
            0
        }
    }
}


/// A request of the price protocol.
#[derive(PartialEq, Eq, Structural, Debug, Clone, Copy)]
pub enum Message {
    /// Record `price` at `timestamp`.
    Insert { timestamp: i32, price: i32 },
    /// Ask for the mean price over `mintime..=maxtime`.
    Query { mintime: i32, maxtime: i32 },
}

/// Why a request could not be read.
#[derive(PartialEq, Eq, Structural, Debug, Clone, Copy)]
pub enum MessageError {
    /// The first byte named no known operation.
    UnexpectedOpCode(u8),
}

/// The unsigned value of four bytes read most significant first.
pub open spec fn be_u32_value(b0: u8, b1: u8, b2: u8, b3: u8) -> int {
    b0 * 16777216 + b1 * 65536 + b2 * 256 + b3
}

/// The two's complement value of four bytes read most significant first.
pub open spec fn be_i32_value(b0: u8, b1: u8, b2: u8, b3: u8) -> int {
    let u = be_u32_value(b0, b1, b2, b3);
    if u < 0x8000_0000 {
        u
    } else {
        u - 0x1_0000_0000
    }
}

/// The four big-endian bytes of the two's complement form of `v`.
pub open spec fn be_i32_bytes(v: int) -> Seq<u8> {
    let u = if v >= 0 {
        v
    } else {
        v + 0x1_0000_0000
    };
    seq![
        (u / 16777216) as u8,
        ((u / 65536) % 256) as u8,
        ((u / 256) % 256) as u8,
        (u % 256) as u8,
    ]
}

/// The request that a nine-byte frame encodes, or the unknown operation byte.
pub open spec fn spec_parse(b: Seq<u8>) -> Result<Message, MessageError> {
    let first = be_i32_value(b[1], b[2], b[3], b[4]);
    let second = be_i32_value(b[5], b[6], b[7], b[8]);
    if b[0] == 73u8 {
        Ok(Message::Insert { timestamp: first as i32, price: second as i32 })
    } else if b[0] == 81u8 {
        Ok(Message::Query { mintime: first as i32, maxtime: second as i32 })
    } else {
        Err(MessageError::UnexpectedOpCode(b[0]))
    }
}

/// Reads an `i32` from four big-endian bytes.
fn i32_from_be(b0: u8, b1: u8, b2: u8, b3: u8) -> (v: i32)
    ensures
        v == be_i32_value(b0, b1, b2, b3),
{
    let u: u32 = (b0 as u32) * 16777216 + (b1 as u32) * 65536 + (b2 as u32) * 256 + (b3 as u32);
    if u < 0x8000_0000 {
        u as i32
    } else {
        ((u - 0x8000_0000) as i32) - 0x4000_0000 - 0x4000_0000
    }
}

/// Appends the four big-endian bytes of `v` to `out`.
fn push_i32_be(out: &mut Vec<u8>, v: i32)
    ensures
        final(out)@ == old(out)@ + be_i32_bytes(v as int),
{
    let u: u32 = if v >= 0 {
        v as u32
    } else {
        ((v + 0x4000_0000 + 0x4000_0000) as u32) + 0x8000_0000
    };
    out.push((u / 16777216) as u8);
    out.push(((u / 65536) % 256) as u8);
    out.push(((u / 256) % 256) as u8);
    out.push((u % 256) as u8);
}

impl Message {
    /// Reads a request from its nine-byte frame: an operation byte (`I` or
    /// `Q`) and two big-endian `i32`s.
    pub fn parse(buffer: &[u8; 9]) -> (res: Result<Message, MessageError>)
        ensures
            res == spec_parse(buffer@),
    {
        let op = buffer[0];
        let first = i32_from_be(buffer[1], buffer[2], buffer[3], buffer[4]);
        let second = i32_from_be(buffer[5], buffer[6], buffer[7], buffer[8]);
        if op == 73u8 {
            Ok(Message::Insert { timestamp: first, price: second })
        } else if op == 81u8 {
            Ok(Message::Query { mintime: first, maxtime: second })
        } else {
            Err(MessageError::UnexpectedOpCode(op))
        }
    }
}


/// The answer to a query over `mintime..=maxtime`: the mean price there, or 0
/// when the window is empty.
pub open spec fn spec_answer(m: Map<i32, i32>, mintime: i32, maxtime: i32) -> int {
    if mintime > maxtime {
        0
    } else {
        spec_mean(m, mintime as int, maxtime as int)
    }
}

/// What a session that starts with price history `m` writes back for the
/// bytes `input`, and how it ends: complete nine-byte frames are served in
/// order, a trailing partial frame ends the session cleanly, and an unknown
/// operation ends it with an error.
pub open spec fn spec_session(m: Map<i32, i32>, input: Seq<u8>) -> (Seq<u8>, Result<(), MessageError>)
    decreases input.len(),
{
    if input.len() < 9 {
        (Seq::empty(), Ok(()))
    } else {
        match spec_parse(input.take(9)) {
            Err(e) => (Seq::empty(), Err(e)),
            Ok(Message::Insert { timestamp, price }) => spec_session(
                m.insert(timestamp, price),
                input.skip(9),
            ),
            Ok(Message::Query { mintime, maxtime }) => {
                let rest = spec_session(m, input.skip(9));
                (be_i32_bytes(spec_answer(m, mintime, maxtime)) + rest.0, rest.1)
            },
        }
    }
}

/// Serves one nine-byte frame against the price history `db`: an insert
/// records its price and answers nothing, a query answers the mean price over
/// its window, and an unknown operation leaves `db` as it was.
pub fn handle_message(db: &mut Db, buffer: &[u8; 9]) -> (res: Result<Option<i32>, MessageError>)
    ensures
        match spec_parse(buffer@) {
            Ok(Message::Insert { timestamp, price }) => {
                &&& final(db)@ == old(db)@.insert(timestamp, price)
                &&& res == Ok::<Option<i32>, MessageError>(None)
            },
            Ok(Message::Query { mintime, maxtime }) => {
                &&& final(db)@ == old(db)@
                &&& res matches Ok(Some(v)) && v == spec_answer(old(db)@, mintime, maxtime)
            },
            Err(e) => {
                &&& final(db)@ == old(db)@
                &&& res == Err::<Option<i32>, MessageError>(e)
            },
        },
{
    match Message::parse(buffer) {
        Ok(Message::Insert { timestamp, price }) => {
            db.insert(timestamp, price);
            Ok(None)
        },
        Ok(Message::Query { mintime, maxtime }) => Ok(Some(db.mean(mintime..=maxtime))),
        Err(e) => Err(e),
    }
}

/// Serves a whole session read from `input` with a fresh price history,
/// appending each query's answer to `output` as a big-endian `i32`.
pub fn handle_client_internal(input: &[u8], output: &mut Vec<u8>) -> (res: Result<(), MessageError>)
    ensures
        final(output)@ == old(output)@ + spec_session(Map::empty(), input@).0,
        res == spec_session(Map::empty(), input@).1,
{
    let mut db = Db::new();
    let mut i: usize = 0;
    let ghost produced: Seq<u8> = Seq::empty();
    proof {
        assert(input@.skip(0) =~= input@);
        assert(produced + spec_session(db@, input@).0 =~= spec_session(db@, input@).0);
    }
    while input.len() - i >= 9
        invariant
            i <= input.len(),
            output@ == old(output)@ + produced,
            spec_session(Map::empty(), input@) == (
                produced + spec_session(db@, input@.skip(i as int)).0,
                spec_session(db@, input@.skip(i as int)).1,
            ),
        decreases input.len() - i,
    {
        let frame: [u8; 9] = [
            input[i],
            input[i + 1],
            input[i + 2],
            input[i + 3],
            input[i + 4],
            input[i + 5],
            input[i + 6],
            input[i + 7],
            input[i + 8],
        ];
        let ghost rest = input@.skip(i as int);
        proof {
            assert(frame@ =~= rest.take(9));
            assert(rest.skip(9) =~= input@.skip(i + 9));
        }
        match handle_message(&mut db, &frame) {
            Ok(Some(v)) => {
                push_i32_be(output, v);
                proof {
                    let tail = spec_session(db@, input@.skip(i + 9)).0;
                    assert(produced + (be_i32_bytes(v as int) + tail) =~= (produced + be_i32_bytes(
                        v as int,
                    )) + tail);
                    assert(old(output)@ + produced + be_i32_bytes(v as int) =~= old(output)@ + (
                    produced + be_i32_bytes(v as int)));
                    produced = produced + be_i32_bytes(v as int);
                }
            },
            Ok(None) => {},
            Err(e) => {
                return Err(e);
            },
        }
        i = i + 9;
    }
    proof {
        assert(produced + Seq::<u8>::empty() =~= produced);
    }
    Ok(())
}


/// A window that avoids timestamp `t` sums and counts the same whatever is
/// recorded at `t`.
proof fn lemma_window_ignores(m: Map<i32, i32>, t: i32, p: i32, lo: int, hi: int)
    requires
        i32::MIN <= lo,
        hi <= i32::MAX,
        t < lo || t > hi,
    ensures
        window_sum(m.insert(t, p), lo, hi) == window_sum(m, lo, hi),
        window_count(m.insert(t, p), lo, hi) == window_count(m, lo, hi),
    decreases hi + 1 - lo,
{
    if hi >= lo {
        lemma_window_ignores(m, t, p, lo, hi - 1);
        assert(hi as i32 != t);
    }
}

/// A window holding no recorded timestamp has neither sum nor count.
proof fn lemma_window_empty(lo: int, hi: int)
    ensures
        window_sum(Map::empty(), lo, hi) == 0,
        window_count(Map::empty(), lo, hi) == 0,
    decreases hi + 1 - lo,
{
    if hi >= lo {
        lemma_window_empty(lo, hi - 1);
    }
}

/// A query over the single timestamp of the last insert there answers the
/// price that insert recorded.
pub proof fn law_query_reads_back_insert(m: Map<i32, i32>, timestamp: i32, price: i32)
    ensures
        spec_answer(m.insert(timestamp, price), timestamp, timestamp) == price,
{
    let m2 = m.insert(timestamp, price);
    assert(window_sum(m2, timestamp as int, timestamp as int - 1) == 0);
    assert(window_count(m2, timestamp as int, timestamp as int - 1) == 0);
    assert(window_count(m2, timestamp as int, timestamp as int) == 1);
    assert(window_sum(m2, timestamp as int, timestamp as int) == price);
}

/// An insert outside a query's window does not change the query's answer.
pub proof fn law_insert_outside_window_is_invisible(
    m: Map<i32, i32>,
    timestamp: i32,
    price: i32,
    mintime: i32,
    maxtime: i32,
)
    requires
        timestamp < mintime || timestamp > maxtime,
    ensures
        spec_answer(m.insert(timestamp, price), mintime, maxtime) == spec_answer(m, mintime, maxtime),
{
    lemma_window_ignores(m, timestamp, price, mintime as int, maxtime as int);
}

/// With no price recorded, every query answers 0.
pub proof fn law_empty_history_answers_zero(mintime: i32, maxtime: i32)
    ensures
        spec_answer(Map::empty(), mintime, maxtime) == 0,
{
    lemma_window_empty(mintime as int, maxtime as int);
}

/// Reading back the four bytes written for an `i32` gives that `i32`.
pub proof fn law_i32_bytes_round_trip(v: i32)
    ensures
        ({
            let b = be_i32_bytes(v as int);
            be_i32_value(b[0], b[1], b[2], b[3]) == v
        }),
{
    let u: int = if v >= 0 {
        v as int
    } else {
        v + 0x1_0000_0000
    };
    assert(0 <= u < 0x1_0000_0000);
    let b = be_i32_bytes(v as int);
    assert(b[0] == u / 16777216);
    assert(b[1] == (u / 65536) % 256);
    assert(b[2] == (u / 256) % 256);
    assert(b[3] == u % 256);
    assert((u / 16777216) * 16777216 + ((u / 65536) % 256) * 65536 + ((u / 256) % 256) * 256 + u
        % 256 == u) by (nonlinear_arith)
        requires
            0 <= u < 0x1_0000_0000,
    ;
}

/// The nine bytes of an insert request.
pub open spec fn insert_frame(timestamp: i32, price: i32) -> Seq<u8> {
    seq![73u8] + be_i32_bytes(timestamp as int) + be_i32_bytes(price as int)
}

/// The nine bytes of a query request.
pub open spec fn query_frame(mintime: i32, maxtime: i32) -> Seq<u8> {
    seq![81u8] + be_i32_bytes(mintime as int) + be_i32_bytes(maxtime as int)
}

/// The two `i32`s a frame built from `op`, `a` and `b` carries read back as `a`
/// and `b`, and the frame is nine bytes long.
proof fn lemma_frame_fields(op: u8, a: i32, b: i32)
    ensures
        ({
            let f = seq![op] + be_i32_bytes(a as int) + be_i32_bytes(b as int);
            &&& f.len() == 9
            &&& f[0] == op
            &&& be_i32_value(f[1], f[2], f[3], f[4]) == a
            &&& be_i32_value(f[5], f[6], f[7], f[8]) == b
        }),
{
    law_i32_bytes_round_trip(a);
    law_i32_bytes_round_trip(b);
    let ba = be_i32_bytes(a as int);
    let bb = be_i32_bytes(b as int);
    let f = seq![op] + ba + bb;
    assert(f[1] == ba[0] && f[2] == ba[1] && f[3] == ba[2] && f[4] == ba[3]);
    assert(f[5] == bb[0] && f[6] == bb[1] && f[7] == bb[2] && f[8] == bb[3]);
}

/// In a session, an insert request answers nothing and records its price for
/// every request after it: the rest of the session is served against the
/// history with that price.
pub proof fn law_session_insert_persists(m: Map<i32, i32>, timestamp: i32, price: i32, rest: Seq<u8>)
    ensures
        spec_session(m, insert_frame(timestamp, price) + rest) == spec_session(
            m.insert(timestamp, price),
            rest,
        ),
{
    lemma_frame_fields(73u8, timestamp, price);
    let f = insert_frame(timestamp, price);
    let input = f + rest;
    assert(input.take(9) =~= f);
    assert(input.skip(9) =~= rest);
}

/// In a session, a query request writes its answer over the history built so
/// far, and leaves that history for every request after it: a query never
/// changes a later answer.
pub proof fn law_session_query_keeps_history(m: Map<i32, i32>, mintime: i32, maxtime: i32, rest: Seq<u8>)
    ensures
        spec_session(m, query_frame(mintime, maxtime) + rest) == (
            be_i32_bytes(spec_answer(m, mintime, maxtime)) + spec_session(m, rest).0,
            spec_session(m, rest).1,
        ),
{
    lemma_frame_fields(81u8, mintime, maxtime);
    let f = query_frame(mintime, maxtime);
    let input = f + rest;
    assert(input.take(9) =~= f);
    assert(input.skip(9) =~= rest);
}

/// A lone price anywhere in a query's window, ends included, is the answer:
/// the window is `mintime..=maxtime`.
pub proof fn law_window_includes_both_ends(mintime: i32, maxtime: i32, timestamp: i32, price: i32)
    requires
        mintime <= timestamp <= maxtime,
    ensures
        spec_answer(Map::empty().insert(timestamp, price), mintime, maxtime) == price,
{
    let e = Map::<i32, i32>::empty();
    let m = e.insert(timestamp, price);
    let lo = mintime as int;
    let t = timestamp as int;
    lemma_window_empty(lo, t - 1);
    lemma_window_ignores(e, timestamp, price, lo, t - 1);
    assert(window_sum(m, lo, t) == price);
    assert(window_count(m, lo, t) == 1);
    lemma_window_skip(m, lo, t, maxtime as int);
}

} // verus!
