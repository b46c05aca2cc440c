//! The progress log's logic: how stored events are keyed, in which order
//! they are read back, and what the current phase and the last session are.
use vstd::prelude::*;
use crate::types::{EventType, Phase, ProgressEvent, Timestamp, timestamp_le, timestamp_millis};
use crate::text::{
    chars_of, concat3, decimal, decimal_value, i64_to_decimal, is_digit, lemma_decimal_digits,
    lemma_decimal_injective, lemma_decimal_value, lemma_decimal_value_grows, signed_decimal,
    u64_to_decimal,
};

verus! {

broadcast use vstd::seq_lib::group_filter_ensures;

/// The progress log, over a storage backend that keeps its entries, with
/// the sequence number the next stored event gets.
pub struct StateEngine<B> {
    backend: B,
    next_seq: u64,
}

/// Events in non-decreasing order of their timestamps.
pub open spec fn sorted_by_time(s: Seq<ProgressEvent>) -> bool {
    forall|i: int, j: int| 0 <= i < j < s.len() ==> timestamp_le(s[i].timestamp, s[j].timestamp)
}

/// The events of `s` stamped with the instant `t`, in their order in `s`.
pub open spec fn stamped_at(s: Seq<ProgressEvent>, t: Timestamp) -> Seq<ProgressEvent> {
    s.filter(|e: ProgressEvent| e.timestamp == t)
}

/// `out` is `events` sorted by time, stably: ordered by timestamp, and for
/// every instant the events stamped with it appear in the order they were given.
pub open spec fn stable_time_order(events: Seq<ProgressEvent>, out: Seq<ProgressEvent>) -> bool {
    &&& out.len() == events.len()
    &&& sorted_by_time(out)
    &&& forall|t: Timestamp| #[trigger] stamped_at(out, t) == stamped_at(events, t)
}

/// The event records the start or the end of a session.
pub open spec fn is_session_event(e: ProgressEvent) -> bool {
    e.event_type is SessionStart || e.event_type is SessionEnd
}

/// The phase the log is in: that of its last event, or the first phase for
/// an empty log.
pub open spec fn phase_of_log(events: Seq<ProgressEvent>) -> Phase {
    if events.len() == 0 {
        Phase::InfrastructureReady
    } else {
        events.last().phase
    }
}

/// The last session event of the log, if any.
pub open spec fn last_session_event(events: Seq<ProgressEvent>) -> Option<ProgressEvent>
    decreases events.len(),
{
    if events.len() == 0 {
        None
    } else if is_session_event(events.last()) {
        Some(events.last())
    } else {
        last_session_event(events.drop_last())
    }
}

/// The event starts or ends a session.
pub open spec fn starts_or_ends_session(e: ProgressEvent) -> bool {
    e.event_type is SessionStart || e.event_type is SessionEnd
}

/// The last session event of a log is the last event that starts or ends a
/// session: a session start counts just as a session end does, and every
/// later event is of another type; with no such event there is none.
pub proof fn lemma_last_session_is_last_start_or_end(events: Seq<ProgressEvent>)
    ensures
        last_session_event(events) matches Some(x) ==> exists|i: int|
            0 <= i < events.len() && events[i] == x && starts_or_ends_session(x) && forall|j: int|
                i < j < events.len() ==> !starts_or_ends_session(#[trigger] events[j]),
        last_session_event(events) is None ==> forall|i: int|
            0 <= i < events.len() ==> !starts_or_ends_session(#[trigger] events[i]),
        forall|i: int|
            0 <= i < events.len() && starts_or_ends_session(#[trigger] events[i]) && (forall|j: int|
                i < j < events.len() ==> !starts_or_ends_session(#[trigger] events[j]))
                ==> last_session_event(events) == Some(events[i]),
    decreases events.len(),
{
    if events.len() > 0 {
        let d = events.drop_last();
        lemma_last_session_is_last_start_or_end(d);
        let n = events.len() - 1;
        assert forall|i: int| 0 <= i < d.len() implies #[trigger] d[i] == events[i] by {}
        if starts_or_ends_session(events[n]) {
            assert(last_session_event(events) == Some(events[n]));
            assert forall|i: int|
                0 <= i < events.len() && starts_or_ends_session(#[trigger] events[i]) && (forall|
                    j: int,
                | i < j < events.len() ==> !starts_or_ends_session(#[trigger] events[j]))
                implies last_session_event(events) == Some(events[i]) by {
                if i < n {
                    assert(!starts_or_ends_session(events[n]));
                }
            }
        } else {
            assert(last_session_event(events) == last_session_event(d));
            if let Some(x) = last_session_event(d) {
                let i = choose|i: int|
                    0 <= i < d.len() && d[i] == x && starts_or_ends_session(x) && forall|j: int|
                        i < j < d.len() ==> !starts_or_ends_session(#[trigger] d[j]);
                assert forall|j: int| i < j < events.len() implies !starts_or_ends_session(
                    #[trigger] events[j],
                ) by {
                    if j < n {
                        assert(d[j] == events[j]);
                    }
                }
            }
            if last_session_event(d) is None {
                assert forall|i: int| 0 <= i < events.len() implies !starts_or_ends_session(
                    #[trigger] events[i],
                ) by {
                    if i < n {
                        assert(d[i] == events[i]);
                    }
                }
            }
            assert forall|i: int|
                0 <= i < events.len() && starts_or_ends_session(#[trigger] events[i]) && (forall|
                    j: int,
                | i < j < events.len() ==> !starts_or_ends_session(#[trigger] events[j]))
                implies last_session_event(events) == Some(events[i]) by {
                assert(i < n);
                assert(d[i] == events[i]);
                assert forall|j: int| i < j < d.len() implies !starts_or_ends_session(
                    #[trigger] d[j],
                ) by {
                    assert(d[j] == events[j]);
                }
            }
        }
    }
}

/// The key under which an event is stored as the log's `seq`-th entry: its
/// milliseconds since the epoch, the tag of the thread that stored it, and
/// the sequence number, separated by dashes.
pub open spec fn event_key_of(e: ProgressEvent, thread_tag: Seq<char>, seq: nat) -> Seq<char> {
    signed_decimal(timestamp_millis(e.timestamp)) + "-"@ + thread_tag + "-"@ + decimal(seq)
}

/// The keys that the first `n` entries of a log can have been stored under.
pub open spec fn keys_before(n: nat) -> Set<Seq<char>> {
    Set::new(
        |k: Seq<char>|
            exists|e: ProgressEvent, t: Seq<char>, s: nat| s < n && k == event_key_of(e, t, s),
    )
}

/// Two keys that are equal carry the same sequence number: the key ends
/// with the number's digits after the last dash.
pub proof fn lemma_key_determines_seq(
    e1: ProgressEvent,
    t1: Seq<char>,
    s1: nat,
    e2: ProgressEvent,
    t2: Seq<char>,
    s2: nat,
)
    requires
        event_key_of(e1, t1, s1) == event_key_of(e2, t2, s2),
    ensures
        s1 == s2,
{
    let k = event_key_of(e1, t1, s1);
    let d1 = decimal(s1);
    let d2 = decimal(s2);
    let p1 = signed_decimal(timestamp_millis(e1.timestamp)) + "-"@ + t1;
    let p2 = signed_decimal(timestamp_millis(e2.timestamp)) + "-"@ + t2;
    reveal_strlit("-");
    assert(k =~= p1 + seq!['-'] + d1);
    assert(k =~= p2 + seq!['-'] + d2);
    lemma_decimal_digits(s1);
    lemma_decimal_digits(s2);
    let n = k.len();
    if d1.len() < d2.len() {
        let i = n - d1.len() - 1;
        assert(k[i] == '-');
        assert(k[i] == d2[i - (n - d2.len())]);
        assert(is_digit(d2[i - (n - d2.len())]));
    } else if d2.len() < d1.len() {
        let i = n - d2.len() - 1;
        assert(k[i] == '-');
        assert(k[i] == d1[i - (n - d1.len())]);
        assert(is_digit(d1[i - (n - d1.len())]));
    } else {
        assert(d1 =~= k.skip(n - d1.len()));
        assert(d2 =~= k.skip(n - d2.len()));
        lemma_decimal_injective(s1, s2);
    }
}

/// The key of the `n`-th entry is not the key of any earlier entry.
pub proof fn lemma_fresh_key(e: ProgressEvent, thread_tag: Seq<char>, n: nat)
    ensures
        !keys_before(n).contains(event_key_of(e, thread_tag, n)),
        keys_before(n + 1).contains(event_key_of(e, thread_tag, n)),
        keys_before(n).subset_of(keys_before(n + 1)),
{
    let k = event_key_of(e, thread_tag, n);
    if keys_before(n).contains(k) {
        let (e2, t2, s2) = choose|e2: ProgressEvent, t2: Seq<char>, s2: nat|
            s2 < n && k == event_key_of(e2, t2, s2);
        lemma_key_determines_seq(e, thread_tag, n, e2, t2, s2);
    }
    assert(keys_before(n + 1).contains(k)) by {
        assert(exists|e2: ProgressEvent, t2: Seq<char>, s2: nat|
            s2 < n + 1 && k == event_key_of(e2, t2, s2)) by {
            assert(n < n + 1 && k == event_key_of(e, thread_tag, n));
        }
    }
    assert forall|key: Seq<char>| keys_before(n).contains(key) implies keys_before(n + 1).contains(
        key,
    ) by {
        let (e2, t2, s2) = choose|e2: ProgressEvent, t2: Seq<char>, s2: nat|
            s2 < n && key == event_key_of(e2, t2, s2);
        assert(s2 < n + 1 && key == event_key_of(e2, t2, s2));
    }
}

/// The position of the last dash in `k`, if there is one.
pub open spec fn last_dash(k: Seq<char>) -> Option<int>
    decreases k.len(),
{
    if k.len() == 0 {
        None
    } else if k.last() == '-' {
        Some(k.len() - 1)
    } else {
        last_dash(k.drop_last())
    }
}

/// The entry number a stored key ends with: the digits after its last dash,
/// if there are any and nothing else follows that dash.
pub open spec fn key_number(k: Seq<char>) -> Option<nat> {
    match last_dash(k) {
        None => None,
        Some(p) => {
            let d = k.skip(p + 1);
            if d.len() > 0 && forall|i: int| 0 <= i < d.len() ==> is_digit(#[trigger] d[i]) {
                Some(decimal_value(d))
            } else {
                None
            }
        },
    }
}

/// The entry number of a key, when it fits in 64 bits.
pub open spec fn key_number_u64(k: Seq<char>) -> Option<u64> {
    match key_number(k) {
        Some(v) => if v <= u64::MAX {
            Some(v as u64)
        } else {
            None
        },
        None => None,
    }
}

/// A dash followed only by digits is the last dash.
proof fn lemma_last_dash(x: Seq<char>, d: Seq<char>)
    requires
        forall|i: int| 0 <= i < d.len() ==> is_digit(#[trigger] d[i]),
    ensures
        last_dash(x + seq!['-'] + d) == Some(x.len() as int),
    decreases d.len(),
{
    let k = x + seq!['-'] + d;
    if d.len() > 0 {
        assert(k.drop_last() =~= x + seq!['-'] + d.drop_last());
        assert(is_digit(d.last()));
        lemma_last_dash(x, d.drop_last());
    }
}

/// The key of the log's `seq`-th entry ends with that entry number.
pub proof fn lemma_key_number(e: ProgressEvent, thread_tag: Seq<char>, seq: nat)
    ensures
        key_number(event_key_of(e, thread_tag, seq)) == Some(seq),
{
    let x = signed_decimal(timestamp_millis(e.timestamp)) + "-"@ + thread_tag;
    let d = decimal(seq);
    reveal_strlit("-");
    let k = event_key_of(e, thread_tag, seq);
    assert(k =~= x + seq!['-'] + d);
    lemma_decimal_digits(seq);
    lemma_last_dash(x, d);
    assert(k.skip(x.len() as int + 1) =~= d);
    lemma_decimal_value(seq);
}

/// A log opened after the entry numbers of all its stored keys (see
/// `first_free_entry`) hands out keys none of them has: the key of entry
/// `n` or any later entry is not a stored key.
pub proof fn lemma_new_key_not_stored(
    stored: Set<Seq<char>>,
    n: nat,
    m: nat,
    e: ProgressEvent,
    thread_tag: Seq<char>,
)
    requires
        forall|k: Seq<char>|
            #[trigger] stored.contains(k) ==> (key_number_u64(k) matches Some(v) ==> v < n),
        n <= m <= u64::MAX,
    ensures
        !stored.contains(event_key_of(e, thread_tag, m)),
{
    lemma_key_number(e, thread_tag, m);
    assert(key_number_u64(event_key_of(e, thread_tag, m)) == Some(m as u64));
}

/// The log is append-only: storing the `n`-th entry of a log whose keys all
/// belong to its first `n` entries keeps every stored event, under its key,
/// adds the new one, and leaves a log whose keys all belong to its first
/// `n + 1` entries.
pub proof fn lemma_append_keeps_events(
    store: Map<Seq<char>, ProgressEvent>,
    n: nat,
    e: ProgressEvent,
    thread_tag: Seq<char>,
)
    requires
        store.dom().subset_of(keys_before(n)),
    ensures
        ({
            let after = store.insert(event_key_of(e, thread_tag, n), e);
            &&& forall|key: Seq<char>| #[trigger]
                store.dom().contains(key) ==> after.dom().contains(key) && after[key] == store[key]
            &&& after[event_key_of(e, thread_tag, n)] == e
            &&& store.dom().finite() ==> after.dom().len() == store.dom().len() + 1
            &&& after.dom().subset_of(keys_before(n + 1))
        }),
{
    let k = event_key_of(e, thread_tag, n);
    lemma_fresh_key(e, thread_tag, n);
    assert(!store.dom().contains(k));
}

/// Filtering a singleton.
proof fn lemma_filter_single(x: ProgressEvent, t: Timestamp)
    ensures
        stamped_at(seq![x], t) == (if x.timestamp == t {
            seq![x]
        } else {
            Seq::<ProgressEvent>::empty()
        }),
{
    reveal_with_fuel(Seq::filter, 2);
    assert(seq![x].drop_last() =~= Seq::<ProgressEvent>::empty());
}

/// Filtering a sequence none of whose events has the instant.
proof fn lemma_filter_none(s: Seq<ProgressEvent>, t: Timestamp)
    requires
        forall|i: int| 0 <= i < s.len() ==> s[i].timestamp != t,
    ensures
        stamped_at(s, t) == Seq::<ProgressEvent>::empty(),
{
    let pred = |e: ProgressEvent| e.timestamp == t;
    assert(s.all(|x: ProgressEvent| !pred(x)));
    s.lemma_all_neg_filter_empty(pred);
}

/// Filtering by an instant, unfolded at the last event.
proof fn lemma_filter_last(s: Seq<ProgressEvent>, t: Timestamp)
    requires
        s.len() > 0,
    ensures
        stamped_at(s, t) == (if s.last().timestamp == t {
            stamped_at(s.drop_last(), t).push(s.last())
        } else {
            stamped_at(s.drop_last(), t)
        }),
{
    reveal_with_fuel(Seq::filter, 1);
}

/// A sorted sequence holds, at its end, an event of its latest instant: any
/// event of `s` is not later than the last one.
proof fn lemma_member_not_later(s: Seq<ProgressEvent>, t: Timestamp)
    requires
        s.len() > 0,
        sorted_by_time(s),
        stamped_at(s, t).len() > 0,
    ensures
        timestamp_le(t, s.last().timestamp),
{
    let e = stamped_at(s, t)[0];
    assert(e.timestamp == t);
    assert(stamped_at(s, t).contains(e));
    s.lemma_filter_contains_rev(|e: ProgressEvent| e.timestamp == t, e);
    assert(s.contains(e));
    let k = choose|k: int| 0 <= k < s.len() && s[k] == e;
    if k < s.len() - 1 {
        assert(timestamp_le(s[k].timestamp, s[s.len() - 1].timestamp));
    }
}

/// Two sorted sequences of equal length with the same events at every
/// instant are equal.
proof fn lemma_sorted_same_instants_equal(a: Seq<ProgressEvent>, b: Seq<ProgressEvent>)
    requires
        a.len() == b.len(),
        sorted_by_time(a),
        sorted_by_time(b),
        forall|t: Timestamp| #[trigger] stamped_at(a, t) == stamped_at(b, t),
    ensures
        a == b,
    decreases a.len(),
{
    if a.len() == 0 {
        assert(a =~= b);
    } else {
        let x = a.last();
        let y = b.last();
        lemma_filter_last(a, x.timestamp);
        lemma_filter_last(b, y.timestamp);
        assert(stamped_at(a, x.timestamp).len() > 0);
        assert(stamped_at(b, y.timestamp).len() > 0);
        lemma_member_not_later(b, x.timestamp);
        lemma_member_not_later(a, y.timestamp);
        assert(x.timestamp == y.timestamp);
        let t = x.timestamp;
        lemma_filter_last(b, t);
        assert(stamped_at(a, t).last() == x);
        assert(stamped_at(b, t).last() == y);
        assert(x == y);
        let a0 = a.drop_last();
        let b0 = b.drop_last();
        assert forall|u: Timestamp| #[trigger] stamped_at(a0, u) == stamped_at(b0, u) by {
            lemma_filter_last(a, u);
            lemma_filter_last(b, u);
            if u == t {
                assert(stamped_at(a0, u) =~= stamped_at(a, u).drop_last());
                assert(stamped_at(b0, u) =~= stamped_at(b, u).drop_last());
            }
        }
        lemma_sorted_same_instants_equal(a0, b0);
        assert(a =~= a0.push(x));
        assert(b =~= b0.push(y));
    }
}

/// The stable time order of a log is unique: two sequences that are both
/// the events in stable time order are the same sequence.
pub proof fn lemma_stable_time_order_unique(
    events: Seq<ProgressEvent>,
    first: Seq<ProgressEvent>,
    second: Seq<ProgressEvent>,
)
    requires
        stable_time_order(events, first),
        stable_time_order(events, second),
    ensures
        first == second,
{
    assert forall|t: Timestamp| #[trigger] stamped_at(first, t) == stamped_at(second, t) by {
        assert(stamped_at(first, t) == stamped_at(events, t));
        assert(stamped_at(second, t) == stamped_at(events, t));
    }
    lemma_sorted_same_instants_equal(first, second);
}

/// An event occurs in a log as often as among the log's events of its
/// instant.
proof fn lemma_count_at_instant(s: Seq<ProgressEvent>, x: ProgressEvent)
    ensures
        s.to_multiset().count(x) == stamped_at(s, x.timestamp).to_multiset().count(x),
    decreases s.len(),
{
    broadcast use vstd::seq_lib::group_to_multiset_ensures;

    if s.len() == 0 {
        assert(stamped_at(s, x.timestamp) =~= Seq::<ProgressEvent>::empty()) by {
            reveal_with_fuel(Seq::filter, 1);
        }
    } else {
        let d = s.drop_last();
        lemma_count_at_instant(d, x);
        lemma_filter_last(s, x.timestamp);
        assert(s =~= d.push(s.last()));
    }
}

/// The stable time order of a log is a permutation of it: every event
/// occurs in it as often as in the log.
pub proof fn lemma_stable_time_order_permutes(events: Seq<ProgressEvent>, out: Seq<ProgressEvent>)
    requires
        stable_time_order(events, out),
    ensures
        out.to_multiset() == events.to_multiset(),
{
    assert forall|x: ProgressEvent| out.to_multiset().count(x) == events.to_multiset().count(x) by {
        lemma_count_at_instant(out, x);
        lemma_count_at_instant(events, x);
        assert(stamped_at(out, x.timestamp) == stamped_at(events, x.timestamp));
    }
    assert(out.to_multiset() =~= events.to_multiset());
}

/// An event not earlier than any in a log goes to the end of its stable time
/// order; it then sets the log's phase, and when it starts or ends a
/// session it is the log's last session event.
pub proof fn lemma_latest_event_goes_last(
    events: Seq<ProgressEvent>,
    out: Seq<ProgressEvent>,
    e: ProgressEvent,
)
    requires
        stable_time_order(events, out),
        forall|i: int| 0 <= i < events.len() ==> timestamp_le(events[i].timestamp, e.timestamp),
    ensures
        stable_time_order(events.push(e), out.push(e)),
        phase_of_log(out.push(e)) == e.phase,
        is_session_event(e) ==> last_session_event(out.push(e)) == Some(e),
{
    broadcast use vstd::seq_lib::group_to_multiset_ensures;

    lemma_stable_time_order_permutes(events, out);
    assert forall|i: int| 0 <= i < out.len() implies timestamp_le(
        #[trigger] out[i].timestamp,
        e.timestamp,
    ) by {
        assert(out.to_multiset().count(out[i]) > 0);
        assert(events.contains(out[i]));
        let k = choose|k: int| 0 <= k < events.len() && events[k] == out[i];
    }
    let o2 = out.push(e);
    let e2 = events.push(e);
    assert forall|t: Timestamp| #[trigger] stamped_at(o2, t) == stamped_at(e2, t) by {
        lemma_filter_last(o2, t);
        lemma_filter_last(e2, t);
        assert(o2.drop_last() =~= out);
        assert(e2.drop_last() =~= events);
    }
    assert(o2.drop_last() =~= out);
}

/// A log already in time order is its own stable time order.
pub proof fn lemma_sorted_log_is_own_order(events: Seq<ProgressEvent>)
    requires
        sorted_by_time(events),
    ensures
        stable_time_order(events, events),
{
}

impl<B> StateEngine<B> {
    /// The backend that stores the log.
    pub closed spec fn held_backend(self) -> B {
        self.backend
    }

    /// The number of entries the log has stored or handed out keys for.
    pub closed spec fn entries(self) -> nat {
        self.next_seq as nat
    }

    /// The number of entries the log has stored or handed out keys for.
    pub fn entry_count(&self) -> (n: u64)
        ensures
            n == self.entries(),
    {
        self.next_seq
    }

    /// The entry number a stored key ends with, when it fits in 64 bits.
    pub fn key_entry_number(key: &str) -> (r: Option<u64>)
        ensures
            r == key_number_u64(key@),
    {
        let k = chars_of(key);
        let n = k.len();
        let mut i = n;
        assert(k@.take(n as int) =~= k@);
        while i > 0 && k[i - 1] != '-'
            invariant
                i <= n,
                n == k@.len(),
                k@ == key@,
                last_dash(k@) == last_dash(k@.take(i as int)),
            decreases i,
        {
            assert(k@.take(i as int).drop_last() =~= k@.take(i - 1));
            i = i - 1;
        }
        assert(k@.take(n as int) =~= k@);
        if i == 0 {
            assert(k@.take(0) =~= Seq::<char>::empty());
            return None;
        }
        assert(k@.take(i as int).drop_last() =~= k@.take(i - 1));
        assert(last_dash(k@) == Some(i - 1));
        let ghost d = k@.skip(i as int);
        if i == n {
            assert(d.len() == 0);
            return None;
        }
        let mut value: u64 = 0;
        let mut j = i;
        while j < n
            invariant
                0 < i <= j <= n,
                n == k@.len(),
                k@ == key@,
                last_dash(key@) == Some(i - 1),
                d == k@.skip(i as int),
                d.len() > 0,
                value == decimal_value(d.take(j - i)),
                forall|q: int| 0 <= q < j - i ==> is_digit(#[trigger] d[q]),
            decreases n - j,
        {
            let c = k[j];
            if !('0' <= c && c <= '9') {
                assert(!is_digit(d[j - i]));
                return None;
            }
            assert(d.take(j - i + 1).drop_last() =~= d.take(j - i));
            assert(d.take(j - i + 1).last() == c);
            let digit = (c as u32 - '0' as u32) as u64;
            assert(digit == (c as int - '0' as int) as nat);
            assert(decimal_value(d.take(j - i + 1)) == value * 10 + digit);
            if value > (u64::MAX - digit) / 10 {
                proof {
                    assert(value * 10 + digit > u64::MAX) by (nonlinear_arith)
                        requires
                            value > (u64::MAX - digit) / 10,
                            digit <= 9,
                    ;
                    if forall|q: int| 0 <= q < d.len() ==> is_digit(#[trigger] d[q]) {
                        lemma_decimal_value_grows(d, j - i + 1);
                    }
                }
                return None;
            }
            value = value * 10 + digit;
            j = j + 1;
        }
        assert(d.take(n - i) =~= d);
        Some(value)
    }

    /// The first entry number after those of all the given stored keys
    /// (those that end with a 64-bit entry number): `0` when no key carries
    /// one, or `None` when a key carries the largest 64-bit number.
    pub fn first_free_entry(keys: &Vec<String>) -> (r: Option<u64>)
        ensures
            r matches Some(n) ==> forall|i: int|
                0 <= i < keys@.len() ==> (key_number_u64(#[trigger] keys@[i]@) matches Some(v)
                    ==> v < n),
            r matches Some(n) ==> (n == 0 || exists|i: int|
                0 <= i < keys@.len() && key_number_u64(#[trigger] keys@[i]@) == Some(
                    (n - 1) as u64,
                )),
            r is None <==> exists|i: int|
                0 <= i < keys@.len() && key_number_u64(#[trigger] keys@[i]@) == Some(u64::MAX),
    {
        let mut next: u64 = 0;
        let len = keys.len();
        for i in 0..len
            invariant
                len == keys@.len(),
                forall|q: int|
                    0 <= q < i ==> (key_number_u64(#[trigger] keys@[q]@) matches Some(v) ==> v
                        < next),
                next == 0 || exists|q: int|
                    0 <= q < i && key_number_u64(#[trigger] keys@[q]@) == Some((next - 1) as u64),
        {
            if let Some(v) = Self::key_entry_number(keys[i].as_str()) {
                if v == u64::MAX {
                    return None;
                }
                if v >= next {
                    next = v + 1;
                }
            }
        }
        Some(next)
    }

    /// A log stored in the given backend, which already holds `stored`
    /// entries.
    pub fn from_backend(backend: B, stored: u64) -> (engine: StateEngine<B>)
        ensures
            engine.held_backend() == backend,
            engine.entries() == stored,
    {
        StateEngine { backend, next_seq: stored }
    }

    /// The backend that stores the log.
    pub fn backend(&self) -> (b: &B)
        ensures
            *b == self.held_backend(),
    {
        &self.backend
    }

    /// The key under which the thread with the given tag stores an event as
    /// the log's next entry: a key that no earlier entry has.
    pub fn event_key(&mut self, event: &ProgressEvent, thread_tag: &str) -> (key: String)
        requires
            old(self).entries() < u64::MAX,
            i64::MIN <= event.timestamp.secs * 1000,
            timestamp_millis(event.timestamp) <= i64::MAX,
        ensures
            key@ == event_key_of(*event, thread_tag@, old(self).entries()),
            !keys_before(old(self).entries()).contains(key@),
            final(self).entries() == old(self).entries() + 1,
            final(self).held_backend() == old(self).held_backend(),
    {
        let millis = event.timestamp.millis();
        let digits = i64_to_decimal(millis);
        let head = concat3(digits.as_str(), "-", thread_tag);
        let seq = u64_to_decimal(self.next_seq);
        let key = concat3(head.as_str(), "-", seq.as_str());
        proof {
            lemma_fresh_key(*event, thread_tag@, self.next_seq as nat);
        }
        self.next_seq = self.next_seq + 1;
        key
    }

    /// The events sorted by time; events with equal timestamps keep their
    /// order.
    pub fn sort_events(events: Vec<ProgressEvent>) -> (out: Vec<ProgressEvent>)
        ensures
            stable_time_order(events@, out@),
    {
        let ghost input = events@;
        let mut rest = events;
        let mut out: Vec<ProgressEvent> = Vec::new();
        while rest.len() > 0
            invariant
                rest@ == input.take(rest@.len() as int),
                rest@.len() <= input.len(),
                out@.len() + rest@.len() == input.len(),
                sorted_by_time(out@),
                forall|t: Timestamp| #[trigger]
                    stamped_at(out@, t) == stamped_at(input.skip(rest@.len() as int), t),
            decreases rest@.len(),
        {
            let x = rest.pop().unwrap();
            let j = rest.len();
            let ghost xs = x.timestamp;
            let mut p: usize = 0;
            while p < out.len() && !x.timestamp.not_after(&out[p].timestamp)
                invariant
                    p <= out@.len(),
                    forall|k: int| 0 <= k < p ==> !timestamp_le(xs, out@[k].timestamp),
                    xs == x.timestamp,
                decreases out@.len() - p,
            {
                p = p + 1;
            }
            let ghost old_out = out@;
            proof {
                assert forall|k: int| p <= k < old_out.len() implies timestamp_le(
                    xs,
                    #[trigger] old_out[k].timestamp,
                ) by {
                    assert(timestamp_le(old_out[p as int].timestamp, old_out[k].timestamp)
                        || k == p);
                }
            }
            out.insert(p, x);
            proof {
                let new_out = out@;
                assert(new_out =~= old_out.take(p as int) + seq![x] + old_out.skip(p as int));
                assert(old_out =~= old_out.take(p as int) + old_out.skip(p as int));
                let suffix = input.skip(j as int);
                assert(suffix =~= seq![x] + input.skip(j + 1));
                assert forall|t: Timestamp| #[trigger]
                    stamped_at(new_out, t) == stamped_at(suffix, t) by {
                    let pred = |e: ProgressEvent| e.timestamp == t;
                    Seq::filter_distributes_over_add(
                        old_out.take(p as int) + seq![x],
                        old_out.skip(p as int),
                        pred,
                    );
                    Seq::filter_distributes_over_add(old_out.take(p as int), seq![x], pred);
                    Seq::filter_distributes_over_add(
                        old_out.take(p as int),
                        old_out.skip(p as int),
                        pred,
                    );
                    Seq::filter_distributes_over_add(seq![x], input.skip(j + 1), pred);
                    lemma_filter_single(x, t);
                    if xs == t {
                        lemma_filter_none(old_out.take(p as int), t);
                        assert(stamped_at(old_out, t) == stamped_at(old_out.skip(p as int), t));
                    }
                    assert(stamped_at(old_out, t) == stamped_at(input.skip(j + 1), t));
                }
                assert(rest@ =~= input.take(j as int));
            }
        }
        assert(input.skip(0) =~= input);
        out
    }

    /// The phase of the log (given in time order): that of its last event,
    /// or the first phase when it is empty.
    pub fn current_phase_of(events: &Vec<ProgressEvent>) -> (phase: Phase)
        ensures
            phase == phase_of_log(events@),
    {
        let n = events.len();
        if n == 0 {
            Phase::InfrastructureReady
        } else {
            events[n - 1].phase
        }
    }

    /// The last event of the log that starts or ends a session.
    pub fn last_session_in(events: Vec<ProgressEvent>) -> (found: Option<ProgressEvent>)
        ensures
            found == last_session_event(events@),
            found matches Some(x) ==> exists|i: int|
                0 <= i < events@.len() && events@[i] == x && starts_or_ends_session(x) && forall|
                    j: int,
                | i < j < events@.len() ==> !starts_or_ends_session(#[trigger] events@[j]),
            found is None ==> forall|i: int|
                0 <= i < events@.len() ==> !starts_or_ends_session(#[trigger] events@[i]),
    {
        proof {
            lemma_last_session_is_last_start_or_end(events@);
        }
        let ghost input = events@;
        let mut rest = events;
        while rest.len() > 0
            invariant
                rest@ == input.take(rest@.len() as int),
                rest@.len() <= input.len(),
                last_session_event(input) == last_session_event(rest@),
                input == events@,
            decreases rest@.len(),
        {
            let ghost before = rest@;
            let e = rest.pop().unwrap();
            let is_session = match &e.event_type {
                EventType::SessionStart { .. } => true,
                EventType::SessionEnd { .. } => true,
                _ => false,
            };
            assert(e == before.last());
            if is_session {
                assert(is_session_event(before.last()));
                assert(last_session_event(before) == Some(e));
                assert(last_session_event(input) == Some(e));
                proof {
                    lemma_last_session_is_last_start_or_end(input);
                }
                return Some(e);
            }
            assert(rest@ =~= before.drop_last());
            assert(rest@ =~= input.take(rest@.len() as int));
        }
        None
    }
}

} // verus!
