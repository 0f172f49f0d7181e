//! A roster of sessions and when each was last heard from, kept in the order
//! of the sessions' text so that everything built from it is stable for a
//! given set of sessions.

use vstd::prelude::*;
use crate::text::chars_of;

verus! {

/// Lexicographic order on characters, the order `String` sorts in.
pub open spec fn seq_lt(a: Seq<char>, b: Seq<char>) -> bool
    decreases a.len(),
{
    if a.len() == 0 {
        b.len() > 0
    } else if b.len() == 0 {
        false
    } else if a[0] != b[0] {
        a[0] < b[0]
    } else {
        seq_lt(a.drop_first(), b.drop_first())
    }
}

/// No sequence is before itself, no two are before each other, and two
/// different ones are ordered one way or the other.
pub proof fn lemma_seq_lt_total(a: Seq<char>, b: Seq<char>)
    ensures
        !seq_lt(a, a),
        !(seq_lt(a, b) && seq_lt(b, a)),
        a != b ==> seq_lt(a, b) || seq_lt(b, a),
    decreases a.len(),
{
    if a.len() > 0 {
        lemma_seq_lt_total(a.drop_first(), a.drop_first());
        if b.len() > 0 {
            lemma_seq_lt_total(a.drop_first(), b.drop_first());
            if a[0] == b[0] && a.drop_first() == b.drop_first() {
                assert(a =~= seq![a[0]] + a.drop_first());
                assert(b =~= seq![b[0]] + b.drop_first());
            }
        }
    } else if b.len() == 0 {
        assert(a =~= b);
    }
}

/// The order is transitive.
pub proof fn lemma_seq_lt_transitive(a: Seq<char>, b: Seq<char>, c: Seq<char>)
    requires
        seq_lt(a, b),
        seq_lt(b, c),
    ensures
        seq_lt(a, c),
    decreases a.len(),
{
    if a.len() > 0 && b.len() > 0 && c.len() > 0 && a[0] == b[0] && b[0] == c[0] {
        lemma_seq_lt_transitive(a.drop_first(), b.drop_first(), c.drop_first());
    }
}

/// How two keys compare.
#[derive(Debug, Clone, Copy, PartialEq, Eq, Structural)]
pub enum KeyOrder {
    Before,
    Same,
    After,
}

/// Compare two character sequences in the order `String` sorts in.
pub fn compare_chars(a: &Vec<char>, b: &Vec<char>) -> (order: KeyOrder)
    ensures
        order == KeyOrder::Before <==> seq_lt(a@, b@),
        order == KeyOrder::Same <==> a@ == b@,
        order == KeyOrder::After <==> seq_lt(b@, a@),
{
    proof {
        lemma_seq_lt_total(a@, b@);
    }
    let mut i: usize = 0;
    assert(a@.skip(0) =~= a@);
    assert(b@.skip(0) =~= b@);
    while i < a.len() && i < b.len() && a[i] == b[i]
        invariant
            i <= a@.len(),
            i <= b@.len(),
            a@.take(i as int) == b@.take(i as int),
            seq_lt(a@, b@) == seq_lt(a@.skip(i as int), b@.skip(i as int)),
            seq_lt(b@, a@) == seq_lt(b@.skip(i as int), a@.skip(i as int)),
        decreases a@.len() - i,
    {
        assert(a@.skip(i as int).drop_first() =~= a@.skip(i + 1));
        assert(b@.skip(i as int).drop_first() =~= b@.skip(i + 1));
        assert(a@.take(i + 1) =~= a@.take(i as int).push(a@[i as int]));
        assert(b@.take(i + 1) =~= b@.take(i as int).push(b@[i as int]));
        i += 1;
    }
    if i == a.len() && i == b.len() {
        assert(a@ =~= a@.take(i as int));
        assert(b@ =~= b@.take(i as int));
        KeyOrder::Same
    } else if i == a.len() {
        assert(a@.take(i as int) =~= a@);
        assert(a@ != b@);
        KeyOrder::Before
    } else if i == b.len() {
        assert(b@.take(i as int) =~= b@);
        assert(a@ != b@);
        KeyOrder::After
    } else {
        assert(a@.skip(i as int)[0] == a@[i as int]);
        assert(b@.skip(i as int)[0] == b@[i as int]);
        assert(a@[i as int] != b@[i as int]);
        assert(a@ != b@);
        if a[i] < b[i] {
            KeyOrder::Before
        } else {
            KeyOrder::After
        }
    }
}

/// One roster entry: a session and when it was last heard from.
pub type Entry = (Seq<char>, u64);

/// Whether the keys of a roster are strictly increasing.
pub open spec fn keys_sorted(s: Seq<Entry>) -> bool {
    forall|i: int, j: int| 0 <= i < j < s.len() ==> seq_lt(#[trigger] s[i].0, #[trigger] s[j].0)
}

/// Whether `key` is in a roster.
pub open spec fn has_key(s: Seq<Entry>, key: Seq<char>) -> bool {
    exists|i: int| 0 <= i < s.len() && #[trigger] s[i].0 == key
}

/// The keys of a roster, in order.
pub open spec fn keys_of(s: Seq<Entry>) -> Seq<Seq<char>> {
    s.map_values(|e: Entry| e.0)
}

/// Where `key` sits in a roster that holds it.
pub open spec fn key_index(s: Seq<Entry>, key: Seq<char>) -> int {
    choose|i: int| 0 <= i < s.len() && s[i].0 == key
}

/// Whether `p` is where `key` belongs among the sorted keys of `s`.
pub open spec fn is_insert_position(s: Seq<Entry>, key: Seq<char>, p: int) -> bool {
    &&& 0 <= p <= s.len()
    &&& forall|i: int| 0 <= i < p ==> seq_lt(#[trigger] s[i].0, key)
    &&& forall|i: int| p <= i < s.len() ==> seq_lt(key, #[trigger] s[i].0)
}

/// Where `key` belongs among the sorted keys of a roster that lacks it.
pub open spec fn insert_position(s: Seq<Entry>, key: Seq<char>) -> int {
    choose|p: int| is_insert_position(s, key, p)
}

/// The roster with `key` recorded as heard from at `t`: its entry updated in
/// place, or a new entry where its key sorts.
pub open spec fn roster_insert(s: Seq<Entry>, key: Seq<char>, t: u64) -> Seq<Entry> {
    if has_key(s, key) {
        s.update(key_index(s, key), (key, t))
    } else {
        s.insert(insert_position(s, key), (key, t))
    }
}

/// The roster without `key`.
pub open spec fn roster_remove(s: Seq<Entry>, key: Seq<char>) -> Seq<Entry> {
    if has_key(s, key) {
        s.remove(key_index(s, key))
    } else {
        s
    }
}

/// In a sorted roster a key sits at one place only.
pub proof fn lemma_key_index_unique(s: Seq<Entry>, key: Seq<char>, i: int)
    requires
        keys_sorted(s),
        0 <= i < s.len(),
        s[i].0 == key,
    ensures
        key_index(s, key) == i,
{
    let j = key_index(s, key);
    assert(0 <= j < s.len() && s[j].0 == key);
    if j != i {
        lemma_seq_lt_total(key, key);
        if j < i {
            assert(seq_lt(s[j].0, s[i].0));
        } else {
            assert(seq_lt(s[i].0, s[j].0));
        }
    }
}

/// A key missing from a sorted roster belongs at one place only.
pub proof fn lemma_insert_position_unique(s: Seq<Entry>, key: Seq<char>, p: int)
    requires
        is_insert_position(s, key, p),
    ensures
        insert_position(s, key) == p,
{
    let q = insert_position(s, key);
    assert(is_insert_position(s, key, q));
    if q < p {
        assert(seq_lt(s[q].0, key));
        assert(seq_lt(key, s[q].0));
        lemma_seq_lt_total(key, s[q].0);
    } else if p < q {
        assert(seq_lt(s[p].0, key));
        assert(seq_lt(key, s[p].0));
        lemma_seq_lt_total(key, s[p].0);
    }
}

/// Whether an entry has not been heard from for `timeout` at `now`.
pub open spec fn is_stale(e: Entry, now: u64, timeout: u64) -> bool {
    now - e.1 >= timeout
}

/// The entries still fresh at `now`, in order.
pub open spec fn fresh_entries(s: Seq<Entry>, now: u64, timeout: u64) -> Seq<Entry>
    decreases s.len(),
{
    if s.len() == 0 {
        s
    } else {
        let rest = fresh_entries(s.drop_last(), now, timeout);
        if is_stale(s.last(), now, timeout) {
            rest
        } else {
            rest.push(s.last())
        }
    }
}

/// The keys of the entries stale at `now`, in order.
pub open spec fn stale_keys(s: Seq<Entry>, now: u64, timeout: u64) -> Seq<Seq<char>>
    decreases s.len(),
{
    if s.len() == 0 {
        Seq::empty()
    } else {
        let rest = stale_keys(s.drop_last(), now, timeout);
        if is_stale(s.last(), now, timeout) {
            rest.push(s.last().0)
        } else {
            rest
        }
    }
}

/// Dropping stale entries only ever removes entries.
pub proof fn lemma_fresh_entries_shrink(s: Seq<Entry>, now: u64, timeout: u64)
    ensures
        fresh_entries(s, now, timeout).len() <= s.len(),
        forall|k: Seq<char>| #[trigger] has_key(fresh_entries(s, now, timeout), k) ==> has_key(s, k),
    decreases s.len(),
{
    if s.len() > 0 {
        let rest = fresh_entries(s.drop_last(), now, timeout);
        lemma_fresh_entries_shrink(s.drop_last(), now, timeout);
        assert forall|k: Seq<char>| #[trigger] has_key(fresh_entries(s, now, timeout), k) implies has_key(
            s,
            k,
        ) by {
            let f = fresh_entries(s, now, timeout);
            let i = choose|i: int| 0 <= i < f.len() && f[i].0 == k;
            if i < rest.len() {
                assert(rest[i].0 == k);
                assert(has_key(rest, k));
                let j = choose|j: int| 0 <= j < s.drop_last().len() && s.drop_last()[j].0 == k;
                assert(s[j].0 == k);
            } else {
                assert(s[s.len() - 1].0 == k);
            }
        }
    }
}

/// Removing a key from a sorted roster keeps it sorted, drops exactly that
/// key, and shortens the roster by one when the key was there.
pub proof fn lemma_roster_remove(s: Seq<Entry>, key: Seq<char>)
    requires
        keys_sorted(s),
    ensures
        keys_sorted(roster_remove(s, key)),
        forall|k: Seq<char>|
            #[trigger] has_key(roster_remove(s, key), k) == (has_key(s, k) && k != key),
        roster_remove(s, key).len() == s.len() - if has_key(s, key) {
            1int
        } else {
            0int
        },
{
    if has_key(s, key) {
        let at = key_index(s, key);
        let r = s.remove(at);
        assert forall|i: int, j: int| 0 <= i < j < r.len() implies seq_lt(
            #[trigger] r[i].0,
            #[trigger] r[j].0,
        ) by {
            let i0 = if i < at { i } else { i + 1 };
            let j0 = if j < at { j } else { j + 1 };
            assert(r[i] == s[i0]);
            assert(r[j] == s[j0]);
        }
        assert forall|k: Seq<char>| #[trigger] has_key(r, k) == (has_key(s, k) && k != key) by {
            if has_key(r, k) {
                let i = choose|i: int| 0 <= i < r.len() && r[i].0 == k;
                let i0 = if i < at { i } else { i + 1 };
                assert(r[i] == s[i0]);
                assert(s[i0].0 == k);
                if k == key {
                    lemma_key_index_unique(s, key, i0);
                }
            }
            if has_key(s, k) && k != key {
                let i = choose|i: int| 0 <= i < s.len() && s[i].0 == k;
                if i < at {
                    assert(r[i] == s[i]);
                } else {
                    assert(i != at);
                    assert(r[i - 1] == s[i]);
                }
            }
        }
    }
}

/// Recording a key at `t` leaves exactly one entry for it, heard from at
/// `t`, whether or not the key was there before; every other entry keeps its
/// time.
pub proof fn lemma_roster_insert_records(s: Seq<Entry>, key: Seq<char>, t: u64)
    requires
        keys_sorted(s),
    ensures
        exists|i: int|
            0 <= i < roster_insert(s, key, t).len() && #[trigger] roster_insert(s, key, t)[i] == (
                key,
                t,
            ),
        forall|i: int|
            0 <= i < roster_insert(s, key, t).len() && #[trigger] roster_insert(s, key, t)[i].0
                == key ==> roster_insert(s, key, t)[i].1 == t,
        forall|j: int|
            0 <= j < s.len() && s[j].0 != key ==> exists|i: int|
                0 <= i < roster_insert(s, key, t).len() && #[trigger] roster_insert(s, key, t)[i]
                    == #[trigger] s[j],
{
    let r = roster_insert(s, key, t);
    if has_key(s, key) {
        let at = key_index(s, key);
        assert(r[at] == (key, t));
        assert forall|i: int| 0 <= i < r.len() && #[trigger] r[i].0 == key implies r[i].1 == t by {
            if i != at {
                assert(r[i] == s[i]);
                lemma_key_index_unique(s, key, i);
            }
        }
        assert forall|j: int| 0 <= j < s.len() && s[j].0 != key implies exists|i: int|
            0 <= i < r.len() && #[trigger] r[i] == #[trigger] s[j] by {
            assert(r[j] == s[j]);
        }
    } else {
        lemma_insert_position_exists(s, key);
        let p = insert_position(s, key);
        assert(r[p] == (key, t));
        assert forall|i: int| 0 <= i < r.len() && #[trigger] r[i].0 == key implies r[i].1 == t by {
            if i < p {
                assert(r[i] == s[i]);
            } else if i > p {
                assert(r[i] == s[i - 1]);
            }
        }
        assert forall|j: int| 0 <= j < s.len() && s[j].0 != key implies exists|i: int|
            0 <= i < r.len() && #[trigger] r[i] == #[trigger] s[j] by {
            if j < p {
                assert(r[j] == s[j]);
            } else {
                assert(r[j + 1] == s[j]);
            }
        }
    }
}

/// Dropping stale entries a second time at the same moment drops nothing.
pub proof fn lemma_fresh_entries_idempotent(s: Seq<Entry>, now: u64, timeout: u64)
    ensures
        fresh_entries(fresh_entries(s, now, timeout), now, timeout) == fresh_entries(s, now, timeout),
    decreases s.len(),
{
    if s.len() > 0 {
        let rest = fresh_entries(s.drop_last(), now, timeout);
        lemma_fresh_entries_idempotent(s.drop_last(), now, timeout);
        if !is_stale(s.last(), now, timeout) {
            let f = rest.push(s.last());
            assert(f.drop_last() =~= rest);
            assert(f.last() == s.last());
        }
    }
}

/// Every entry kept by an expiry is a fresh entry of the roster it came from.
pub proof fn lemma_fresh_origins(s: Seq<Entry>, now: u64, timeout: u64)
    ensures
        forall|i: int|
            #![trigger fresh_entries(s, now, timeout)[i]]
            0 <= i < fresh_entries(s, now, timeout).len() ==> exists|j: int|
                #![trigger s[j]]
                0 <= j < s.len() && s[j] == fresh_entries(s, now, timeout)[i] && !is_stale(
                    s[j],
                    now,
                    timeout,
                ),
    decreases s.len(),
{
    if s.len() > 0 {
        let init = s.drop_last();
        lemma_fresh_origins(init, now, timeout);
        let rest = fresh_entries(init, now, timeout);
        let f = fresh_entries(s, now, timeout);
        assert forall|i: int| #![trigger f[i]] 0 <= i < f.len() implies exists|j: int|
            #![trigger s[j]]
            0 <= j < s.len() && s[j] == f[i] && !is_stale(s[j], now, timeout) by {
            if i < rest.len() {
                assert(f[i] == rest[i]);
                let j = choose|j: int|
                    #![trigger init[j]]
                    0 <= j < init.len() && init[j] == rest[i] && !is_stale(init[j], now, timeout);
                assert(s[j] == init[j]);
            } else {
                assert(s[s.len() - 1] == f[i]);
            }
        }
    }
}

/// Dropping stale entries keeps a sorted roster sorted.
pub proof fn lemma_fresh_entries_sorted(s: Seq<Entry>, now: u64, timeout: u64)
    requires
        keys_sorted(s),
    ensures
        keys_sorted(fresh_entries(s, now, timeout)),
    decreases s.len(),
{
    if s.len() > 0 {
        let init = s.drop_last();
        let rest = fresh_entries(init, now, timeout);
        lemma_fresh_entries_sorted(init, now, timeout);
        lemma_fresh_origins(init, now, timeout);
        if !is_stale(s.last(), now, timeout) {
            let f = rest.push(s.last());
            assert forall|i: int, j: int| 0 <= i < j < f.len() implies seq_lt(
                #[trigger] f[i].0,
                #[trigger] f[j].0,
            ) by {
                if j == f.len() - 1 {
                    let k = choose|k: int|
                        #![trigger init[k]]
                        0 <= k < init.len() && init[k] == rest[i] && !is_stale(init[k], now, timeout);
                    assert(s[k] == init[k]);
                    assert(f[j] == s[s.len() - 1]);
                } else {
                    assert(f[i] == rest[i]);
                    assert(f[j] == rest[j]);
                }
            }
        }
    }
}

/// Whether `key` is the key of an entry of `s` that is stale at `now`.
pub open spec fn is_stale_key(s: Seq<Entry>, key: Seq<char>, now: u64, timeout: u64) -> bool {
    exists|j: int| 0 <= j < s.len() && #[trigger] s[j].0 == key && is_stale(s[j], now, timeout)
}

/// Every key an expiry reports is that of a stale entry of the roster.
pub proof fn lemma_stale_origins(s: Seq<Entry>, now: u64, timeout: u64)
    ensures
        forall|i: int|
            0 <= i < stale_keys(s, now, timeout).len() ==> is_stale_key(
                s,
                #[trigger] stale_keys(s, now, timeout)[i],
                now,
                timeout,
            ),
    decreases s.len(),
{
    if s.len() > 0 {
        let init = s.drop_last();
        lemma_stale_origins(init, now, timeout);
        let rest = stale_keys(init, now, timeout);
        let g = stale_keys(s, now, timeout);
        assert forall|i: int| 0 <= i < g.len() implies is_stale_key(s, #[trigger] g[i], now, timeout) by {
            if i < rest.len() {
                assert(g[i] == rest[i]);
                assert(is_stale_key(init, rest[i], now, timeout));
                let j = choose|j: int|
                    0 <= j < init.len() && #[trigger] init[j].0 == rest[i] && is_stale(
                        init[j],
                        now,
                        timeout,
                    );
                assert(s[j] == init[j]);
            } else {
                assert(is_stale(s.last(), now, timeout));
                assert(s[s.len() - 1].0 == g[i]);
            }
        }
    }
}

/// A key missing from a sorted roster has a place to go.
pub proof fn lemma_insert_position_exists(s: Seq<Entry>, key: Seq<char>)
    requires
        keys_sorted(s),
        !has_key(s, key),
    ensures
        is_insert_position(s, key, insert_position(s, key)),
    decreases s.len(),
{
    if s.len() == 0 {
        assert(is_insert_position(s, key, 0));
    } else {
        let init = s.drop_last();
        assert(!has_key(init, key)) by {
            if has_key(init, key) {
                let i = choose|i: int| 0 <= i < init.len() && init[i].0 == key;
                assert(s[i].0 == key);
            }
        }
        lemma_insert_position_exists(init, key);
        let p = insert_position(init, key);
        let last = s.last().0;
        lemma_seq_lt_total(last, key);
        assert(s[s.len() - 1].0 != key);
        if seq_lt(last, key) {
            assert forall|i: int| 0 <= i < s.len() implies seq_lt(#[trigger] s[i].0, key) by {
                if i < s.len() - 1 {
                    lemma_seq_lt_transitive(s[i].0, last, key);
                }
            }
            assert(is_insert_position(s, key, s.len() as int));
        } else {
            assert forall|i: int| 0 <= i < p implies seq_lt(#[trigger] s[i].0, key) by {
                assert(init[i] == s[i]);
            }
            assert forall|i: int| p <= i < s.len() implies seq_lt(key, #[trigger] s[i].0) by {
                if i < s.len() - 1 {
                    assert(init[i] == s[i]);
                }
            }
            assert(is_insert_position(s, key, p));
        }
    }
}

/// Sessions and when each was last heard from, sorted by session.
pub struct Roster {
    entries: Vec<(String, u64)>,
}

pub open spec fn entry_view(e: (String, u64)) -> Entry {
    (e.0@, e.1)
}

impl View for Roster {
    type V = Seq<Entry>;

    closed spec fn view(&self) -> Seq<Entry> {
        self.entries@.map_values(|e: (String, u64)| entry_view(e))
    }
}

impl Roster {
    /// The roster's invariant: sessions strictly increasing.
    pub open spec fn wf(&self) -> bool {
        keys_sorted(self@)
    }

    pub fn new() -> (roster: Self)
        ensures
            roster.wf(),
            roster@ == Seq::<Entry>::empty(),
    {
        let roster = Roster { entries: Vec::new() };
        assert(roster@ =~= Seq::<Entry>::empty());
        roster
    }

    pub fn len(&self) -> (n: usize)
        ensures
            n == self@.len(),
    {
        self.entries.len()
    }

    pub fn is_empty(&self) -> (empty: bool)
        ensures
            empty == (self@.len() == 0),
    {
        self.entries.len() == 0
    }

    /// Where `key` is, or where it would go.
    fn locate(&self, key: &Vec<char>) -> (place: (usize, bool))
        requires
            self.wf(),
        ensures
            place.0 <= self@.len(),
            place.1 ==> place.0 < self@.len() && self@[place.0 as int].0 == key@,
            !place.1 ==> !has_key(self@, key@),
            forall|i: int| 0 <= i < place.0 ==> seq_lt(#[trigger] self@[i].0, key@),
            !place.1 ==> forall|i: int| place.0 <= i < self@.len() ==> seq_lt(key@, #[trigger] self@[i].0),
    {
        let mut i: usize = 0;
        while i < self.entries.len()
            invariant
                self.wf(),
                i <= self@.len(),
                self@.len() == self.entries@.len(),
                forall|j: int| 0 <= j < i ==> seq_lt(#[trigger] self@[j].0, key@),
            decreases self@.len() - i,
        {
            let here = chars_of(self.entries[i].0.as_str());
            assert(self@[i as int] == entry_view(self.entries@[i as int]));
            match compare_chars(&here, key) {
                KeyOrder::Before => {
                    i += 1;
                },
                KeyOrder::Same => {
                    return (i, true);
                },
                KeyOrder::After => {
                    assert forall|j: int| i <= j < self@.len() implies seq_lt(key@, #[trigger] self@[j].0) by {
                        if j > i {
                            lemma_seq_lt_transitive(key@, self@[i as int].0, self@[j].0);
                        }
                    }
                    assert forall|j: int| 0 <= j < self@.len() implies #[trigger] self@[j].0 != key@ by {
                        if j >= i {
                            lemma_seq_lt_total(key@, self@[j].0);
                        } else {
                            lemma_seq_lt_total(key@, self@[j].0);
                        }
                    }
                    return (i, false);
                },
            }
        }
        assert forall|j: int| 0 <= j < self@.len() implies #[trigger] self@[j].0 != key@ by {
            lemma_seq_lt_total(key@, self@[j].0);
        }
        (i, false)
    }

    /// Whether `session` is on the roster.
    pub fn contains(&self, session: &str) -> (present: bool)
        requires
            self.wf(),
        ensures
            present == has_key(self@, session@),
    {
        let key = chars_of(session);
        self.locate(&key).1
    }

    /// Record `session` as heard from at `now`. Returns whether it was already
    /// on the roster.
    pub fn insert(&mut self, session: &str, now: u64) -> (known: bool)
        requires
            old(self).wf(),
        ensures
            final(self).wf(),
            known == has_key(old(self)@, session@),
            final(self)@ == roster_insert(old(self)@, session@, now),
            forall|k: Seq<char>|
                #[trigger] has_key(final(self)@, k) == (has_key(old(self)@, k) || k == session@),
            final(self)@.len() == old(self)@.len() + if known {
                0int
            } else {
                1int
            },
    {
        let key = chars_of(session);
        let (at, found) = self.locate(&key);
        let ghost before = self@;
        if found {
            self.entries.set(at, (String::from_str(session), now));
            assert(self@ =~= before.update(at as int, (session@, now)));
            proof {
                lemma_key_index_unique(before, key@, at as int);
            }
            assert forall|k: Seq<char>| #[trigger] has_key(self@, k) == (has_key(before, k) || k
                == session@) by {
                if has_key(before, k) {
                    let i = choose|i: int| 0 <= i < before.len() && before[i].0 == k;
                    assert(self@[i].0 == k);
                }
                if has_key(self@, k) {
                    let i = choose|i: int| 0 <= i < self@.len() && self@[i].0 == k;
                    if i != at {
                        assert(before[i].0 == k);
                    }
                }
                if k == session@ {
                    assert(self@[at as int].0 == k);
                }
            }
        } else {
            self.entries.insert(at, (String::from_str(session), now));
            assert(self@ =~= before.insert(at as int, (session@, now)));
            proof {
                lemma_insert_position_unique(before, key@, at as int);
            }
            assert forall|k: Seq<char>| #[trigger] has_key(self@, k) == (has_key(before, k) || k
                == session@) by {
                if has_key(before, k) {
                    let i = choose|i: int| 0 <= i < before.len() && before[i].0 == k;
                    if i < at {
                        assert(self@[i].0 == k);
                    } else {
                        assert(self@[i + 1].0 == k);
                    }
                }
                if has_key(self@, k) {
                    let i = choose|i: int| 0 <= i < self@.len() && self@[i].0 == k;
                    if i < at {
                        assert(before[i].0 == k);
                    } else if i > at {
                        assert(before[i - 1].0 == k);
                    }
                }
                if k == session@ {
                    assert(self@[at as int].0 == k);
                }
            }
            assert forall|i: int, j: int| 0 <= i < j < self@.len() implies seq_lt(
                #[trigger] self@[i].0,
                #[trigger] self@[j].0,
            ) by {
                if j < at {
                } else if i < at && j == at {
                } else if i < at && j > at {
                    lemma_seq_lt_transitive(self@[i].0, key@, self@[j].0);
                } else if i == at {
                } else {
                    assert(self@[i] == before[i - 1]);
                    assert(self@[j] == before[j - 1]);
                }
            }
        }
        found
    }

    /// Take `session` off the roster. Returns whether it was on it.
    pub fn remove(&mut self, session: &str) -> (removed: bool)
        requires
            old(self).wf(),
        ensures
            final(self).wf(),
            removed == has_key(old(self)@, session@),
            final(self)@ == roster_remove(old(self)@, session@),
            forall|k: Seq<char>|
                #[trigger] has_key(final(self)@, k) == (has_key(old(self)@, k) && k != session@),
            final(self)@.len() == old(self)@.len() - if removed {
                1int
            } else {
                0int
            },
            !has_key(final(self)@, session@),
    {
        let key = chars_of(session);
        let (at, found) = self.locate(&key);
        let ghost before = self@;
        if found {
            self.entries.remove(at);
            assert(self@ =~= before.remove(at as int));
            proof {
                lemma_key_index_unique(before, key@, at as int);
            }
            assert forall|i: int, j: int| 0 <= i < j < self@.len() implies seq_lt(
                #[trigger] self@[i].0,
                #[trigger] self@[j].0,
            ) by {
                if i >= at {
                    assert(self@[i] == before[i + 1]);
                }
                if j >= at {
                    assert(self@[j] == before[j + 1]);
                }
            }
            assert forall|i: int| 0 <= i < self@.len() implies #[trigger] self@[i].0 != key@ by {
                if i < at {
                    lemma_seq_lt_total(self@[i].0, key@);
                } else {
                    assert(self@[i] == before[i + 1]);
                    lemma_seq_lt_total(key@, before[i + 1].0);
                }
            }
            assert forall|k: Seq<char>| #[trigger] has_key(self@, k) == (has_key(before, k) && k
                != session@) by {
                if has_key(before, k) && k != session@ {
                    let i = choose|i: int| 0 <= i < before.len() && before[i].0 == k;
                    if i < at {
                        assert(self@[i].0 == k);
                    } else {
                        assert(i != at);
                        assert(self@[i - 1].0 == k);
                    }
                }
                if has_key(self@, k) {
                    let i = choose|i: int| 0 <= i < self@.len() && self@[i].0 == k;
                    if i < at {
                        assert(before[i].0 == k);
                    } else {
                        assert(before[i + 1].0 == k);
                    }
                }
            }
        }
        found
    }

    /// Drop every entry not heard from for `timeout` at `now`. Returns the
    /// sessions dropped, in order.
    pub fn expire(&mut self, now: u64, timeout: u64) -> (dropped: Vec<String>)
        requires
            old(self).wf(),
        ensures
            final(self).wf(),
            final(self)@ == fresh_entries(old(self)@, now, timeout),
            dropped@.map_values(|s: String| s@) == stale_keys(old(self)@, now, timeout),
    {
        let ghost before = self@;
        let mut kept: Vec<(String, u64)> = Vec::new();
        let mut dropped: Vec<String> = Vec::new();
        let mut i: usize = 0;
        let n = self.entries.len();
        while i < n
            invariant
                n == self.entries@.len() == before.len(),
                before == self@,
                keys_sorted(before),
                i <= n,
                kept@.map_values(|e: (String, u64)| entry_view(e)) == fresh_entries(
                    before.take(i as int),
                    now,
                    timeout,
                ),
                dropped@.map_values(|s: String| s@) == stale_keys(before.take(i as int), now, timeout),
                keys_sorted(kept@.map_values(|e: (String, u64)| entry_view(e))),
                forall|k: int, j: int|
                    0 <= k < kept@.len() && i <= j < n ==> seq_lt(
                        #[trigger] kept@[k].0@,
                        #[trigger] before[j].0,
                    ),
            decreases n - i,
        {
            let ghost kept_before = kept@.map_values(|e: (String, u64)| entry_view(e));
            let ghost kept_raw = kept@;
            assert(before.take(i + 1).drop_last() =~= before.take(i as int));
            assert(before.take(i + 1).last() == before[i as int]);
            assert(before[i as int] == entry_view(self.entries@[i as int]));
            let (session, seen) = (self.entries[i].0.clone(), self.entries[i].1);
            if now >= seen && now - seen >= timeout {
                dropped.push(session);
                assert(dropped@.map_values(|s: String| s@) =~= stale_keys(
                    before.take(i as int),
                    now,
                    timeout,
                ).push(before[i as int].0));
            } else {
                kept.push((session, seen));
                assert(kept@.map_values(|e: (String, u64)| entry_view(e)) =~= kept_before.push(
                    before[i as int],
                ));
                assert forall|k: int, j: int|
                    0 <= k < kept@.len() && i + 1 <= j < n implies seq_lt(
                    #[trigger] kept@[k].0@,
                    #[trigger] before[j].0,
                ) by {
                    if k < kept@.len() - 1 {
                        assert(kept@[k] == kept_raw[k]);
                    } else {
                        assert(kept@[k].0@ == before[i as int].0);
                        assert(seq_lt(before[i as int].0, before[j].0));
                    }
                }
            }
            i += 1;
        }
        assert(before.take(n as int) =~= before);
        self.entries = kept;
        dropped
    }

    /// The sessions on the roster, in order.
    pub fn sessions(&self) -> (sessions: Vec<String>)
        ensures
            sessions@.map_values(|s: String| s@) == keys_of(self@),
    {
        let mut sessions: Vec<String> = Vec::new();
        let mut i: usize = 0;
        while i < self.entries.len()
            invariant
                i <= self.entries@.len(),
                sessions@.len() == i,
                sessions@.map_values(|s: String| s@) == keys_of(self@).take(i as int),
            decreases self.entries@.len() - i,
        {
            let ghost raw = sessions@;
            sessions.push(self.entries[i].0.clone());
            assert(self@[i as int] == entry_view(self.entries@[i as int]));
            assert(sessions@[i as int]@ == keys_of(self@)[i as int]);
            assert(sessions@.map_values(|s: String| s@) =~= raw.map_values(|s: String| s@).push(
                keys_of(self@)[i as int],
            ));
            i += 1;
            assert(sessions@.map_values(|s: String| s@) =~= keys_of(self@).take(i as int));
        }
        assert(keys_of(self@).take(i as int) =~= keys_of(self@));
        sessions
    }
}

} // verus!
