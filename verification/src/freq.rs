//! Frequency tables over history lines: counting invocations and commands,
//! and ranking the most frequent keys.

use vstd::prelude::*;
use crate::classify::command_of;

verus! {

/// One more occurrence of `k` recorded in the count map `m`.
pub open spec fn bump(m: Map<Seq<char>, nat>, k: Seq<char>) -> Map<Seq<char>, nat> {
    let c = if m.contains_key(k) {
        m[k]
    } else {
        0nat
    };
    m.insert(k, (c + 1) as nat)
}

/// How often each raw line occurs in `lines`.
pub open spec fn invocation_freq(lines: Seq<Seq<char>>) -> Map<Seq<char>, nat>
    decreases lines.len(),
{
    if lines.len() == 0 {
        Map::empty()
    } else {
        bump(invocation_freq(lines.drop_last()), lines.last())
    }
}

/// How often each command token occurs in `lines`; a line without a
/// command token is not counted.
pub open spec fn command_freq(lines: Seq<Seq<char>>) -> Map<Seq<char>, nat>
    decreases lines.len(),
{
    if lines.len() == 0 {
        Map::empty()
    } else {
        match command_of(lines.last()) {
            Some(c) => bump(command_freq(lines.drop_last()), c),
            None => command_freq(lines.drop_last()),
        }
    }
}

/// How many lines of `lines` yield a command token.
pub open spec fn classified_count(lines: Seq<Seq<char>>) -> nat
    decreases lines.len(),
{
    if lines.len() == 0 {
        0
    } else {
        classified_count(lines.drop_last()) + (if command_of(lines.last()) is Some {
            1nat
        } else {
            0nat
        })
    }
}

/// The count map held by a sequence of key/count entries, later entries
/// overriding earlier ones (entries with distinct keys never override).
spec fn map_of(s: Seq<(String, usize)>) -> Map<Seq<char>, nat>
    decreases s.len(),
{
    if s.len() == 0 {
        Map::empty()
    } else {
        map_of(s.drop_last()).insert(s.last().0@, s.last().1 as nat)
    }
}

spec fn keys_distinct(s: Seq<(String, usize)>) -> bool {
    forall|p: int, q: int| 0 <= p < q < s.len() ==> s[p].0@ != s[q].0@
}

proof fn lemma_map_of_props(s: Seq<(String, usize)>)
    requires
        keys_distinct(s),
    ensures
        map_of(s).dom().finite(),
        map_of(s).dom().len() == s.len(),
        forall|k: Seq<char>| map_of(s).contains_key(k) <==> exists|p: int|
            0 <= p < s.len() && s[p].0@ == k,
        forall|p: int| 0 <= p < s.len() ==> map_of(s)[s[p].0@] == s[p].1 as nat,
    decreases s.len(),
{
    if s.len() == 0 {
    } else {
        let prev = s.drop_last();
        assert(keys_distinct(prev)) by {
            assert(forall|p: int, q: int| 0 <= p < q < prev.len() ==> prev[p] == s[p] && prev[q] == s[q]);
        }
        lemma_map_of_props(prev);
        let last = s.last();
        assert(!map_of(prev).contains_key(last.0@)) by {
            if map_of(prev).contains_key(last.0@) {
                let p = choose|p: int| 0 <= p < prev.len() && prev[p].0@ == last.0@;
                assert(s[p].0@ == s[s.len() - 1].0@);
            }
        }
        assert(map_of(s).dom() =~= map_of(prev).dom().insert(last.0@));
        assert(forall|p: int| 0 <= p < prev.len() ==> s[p] == prev[p]);
        assert(forall|p: int| 0 <= p < s.len() - 1 ==> s[p].0@ != last.0@);
    }
}

/// A table of occurrence counts, keyed by strings; every key occurs once.
pub struct FrequencyTable {
    entries: Vec<(String, usize)>,
}

impl View for FrequencyTable {
    type V = Map<Seq<char>, nat>;

    closed spec fn view(&self) -> Map<Seq<char>, nat> {
        map_of(self.entries@)
    }
}

impl FrequencyTable {
    /// A table is well formed when no key repeats among its entries.
    pub closed spec fn wf(self) -> bool {
        keys_distinct(self.entries@)
    }

    /// An empty table.
    pub fn new() -> (t: FrequencyTable)
        ensures
            t.wf(),
            t@ == Map::<Seq<char>, nat>::empty(),
    {
        FrequencyTable { entries: Vec::new() }
    }

    /// Record one more occurrence of `key`.
    #[verifier::loop_isolation(false)]
    pub fn increment(&mut self, key: String)
        requires
            old(self).wf(),
            old(self)@.contains_key(key@) ==> old(self)@[key@] < usize::MAX,
        ensures
            final(self).wf(),
            final(self)@ == bump(old(self)@, key@),
    {
        proof {
            lemma_map_of_props(self.entries@);
        }
        let n = self.entries.len();
        let mut idx: usize = 0;
        while idx < n
            invariant
                idx <= n,
                n == self.entries@.len(),
                self == old(self),
                forall|p: int| 0 <= p < idx ==> self.entries@[p].0@ != key@,
            decreases n - idx,
        {
            if self.entries[idx].0 == key {
                let ghost before = self.entries@;
                let c = self.entries[idx].1;
                proof {
                    assert(self@.contains_key(key@)) by {
                        assert(before[idx as int].0@ == key@);
                    }
                    assert(self@[key@] == c as nat);
                }
                let k = self.entries[idx].0.clone();
                self.entries[idx] = (k, c + 1);
                proof {
                    lemma_map_of_update(before, idx as int, self.entries@[idx as int]);
                }
                return;
            }
            idx += 1;
        }
        proof {
            assert(!self@.contains_key(key@)) by {
                if self@.contains_key(key@) {
                    let p = choose|p: int|
                        0 <= p < self.entries@.len() && self.entries@[p].0@ == key@;
                }
            }
        }
        let ghost kv = key@;
        let ghost before = self.entries@;
        self.entries.push((key, 1));
        proof {
            assert(self.entries@.drop_last() =~= before);
            assert(self.entries@.last().0@ == kv);
            assert(self.entries@.last().1 == 1);
            assert(forall|p: int| 0 <= p < before.len() ==> self.entries@[p] == before[p]);
        }
    }

    /// The count recorded for `key`, zero when `key` was never recorded.
    #[verifier::loop_isolation(false)]
    pub fn get(&self, key: &str) -> (r: usize)
        requires
            self.wf(),
        ensures
            r as nat == if self@.contains_key(key@) {
                self@[key@]
            } else {
                0nat
            },
    {
        proof {
            lemma_map_of_props(self.entries@);
        }
        let n = self.entries.len();
        let mut idx: usize = 0;
        while idx < n
            invariant
                idx <= n,
                n == self.entries@.len(),
                self.wf(),
                forall|p: int| 0 <= p < idx ==> self.entries@[p].0@ != key@,
            decreases n - idx,
        {
            if crate::classify::str_eq(self.entries[idx].0.as_str(), key) {
                proof {
                    lemma_map_of_props(self.entries@);
                    assert(self.entries@[idx as int].0@ == key@);
                }
                return self.entries[idx].1;
            }
            idx += 1;
        }
        proof {
            if self@.contains_key(key@) {
                let p = choose|p: int|
                    0 <= p < self.entries@.len() && self.entries@[p].0@ == key@;
            }
        }
        0
    }

    /// The key/count pairs the table holds, in first-recorded order.
    #[verifier::loop_isolation(false)]
    pub fn entries(&self) -> (r: Vec<(String, usize)>)
        requires
            self.wf(),
        ensures
            r@.len() == self@.dom().len(),
            forall|p: int| 0 <= p < r@.len() ==> self@.contains_key(r@[p].0@) && self@[r@[p].0@]
                == r@[p].1 as nat,
            forall|p: int, q: int| 0 <= p < q < r@.len() ==> r@[p].0@ != r@[q].0@,
    {
        proof {
            lemma_map_of_props(self.entries@);
        }
        let mut r: Vec<(String, usize)> = Vec::new();
        let mut idx: usize = 0;
        while idx < self.entries.len()
            invariant
                idx <= self.entries@.len(),
                r@.len() == idx,
                forall|p: int| 0 <= p < idx ==> r@[p] == self.entries@[p],
            decreases self.entries@.len() - idx,
        {
            let k = self.entries[idx].0.clone();
            let c = self.entries[idx].1;
            r.push((k, c));
            idx += 1;
        }
        r
    }

    /// How many distinct keys the table holds.
    pub fn len(&self) -> (r: usize)
        requires
            self.wf(),
        ensures
            r as nat == self@.dom().len(),
    {
        proof {
            lemma_map_of_props(self.entries@);
        }
        self.entries.len()
    }
}

/// Every count in the invocation map lies between 1 and the number of lines.
proof fn lemma_invocation_freq_bounds(lines: Seq<Seq<char>>)
    ensures
        invocation_freq(lines).dom().finite(),
        forall|k: Seq<char>| invocation_freq(lines).contains_key(k) ==> 1
            <= invocation_freq(lines)[k] <= lines.len(),
    decreases lines.len(),
{
    if lines.len() == 0 {
    } else {
        lemma_invocation_freq_bounds(lines.drop_last());
    }
}

/// Every count in the command map lies between 1 and the number of lines.
proof fn lemma_command_freq_bounds(lines: Seq<Seq<char>>)
    ensures
        command_freq(lines).dom().finite(),
        forall|k: Seq<char>| command_freq(lines).contains_key(k) ==> 1 <= command_freq(lines)[k]
            <= lines.len(),
    decreases lines.len(),
{
    if lines.len() == 0 {
    } else {
        lemma_command_freq_bounds(lines.drop_last());
    }
}

proof fn lemma_map_of_update(s: Seq<(String, usize)>, idx: int, pair: (String, usize))
    requires
        keys_distinct(s),
        0 <= idx < s.len(),
        pair.0@ == s[idx].0@,
    ensures
        keys_distinct(s.update(idx, pair)),
        map_of(s.update(idx, pair)) == map_of(s).insert(pair.0@, pair.1 as nat),
    decreases s.len(),
{
    let u = s.update(idx, pair);
    assert(keys_distinct(u)) by {
        assert(forall|p: int| 0 <= p < s.len() ==> u[p].0@ == s[p].0@);
    }
    if idx == s.len() - 1 {
        assert(u.drop_last() =~= s.drop_last());
        assert(u.last() == pair);
        assert(map_of(u) == map_of(s.drop_last()).insert(pair.0@, pair.1 as nat));
        assert(map_of(s).insert(pair.0@, pair.1 as nat) =~= map_of(
            s.drop_last(),
        ).insert(pair.0@, pair.1 as nat));
    } else {
        let prev = s.drop_last();
        assert(keys_distinct(prev)) by {
            assert(forall|p: int, q: int| 0 <= p < q < prev.len() ==> prev[p] == s[p] && prev[q]
                == s[q]);
        }
        lemma_map_of_update(prev, idx, pair);
        assert(u.drop_last() =~= prev.update(idx, pair));
        assert(u.last() == s.last());
        // the updated key differs from the last entry's key
        assert(s[idx].0@ != s.last().0@);
        assert(map_of(u) == map_of(prev).insert(pair.0@, pair.1 as nat).insert(
            s.last().0@,
            s.last().1 as nat,
        ));
        assert(map_of(prev).insert(pair.0@, pair.1 as nat).insert(s.last().0@, s.last().1 as nat)
            =~= map_of(prev).insert(s.last().0@, s.last().1 as nat).insert(pair.0@, pair.1 as nat));
    }
}

/// What a top-`n` ranking `r` of the count map `m` is: as many keys as the
/// map has, up to `n`; distinct keys of `m`, counts non-increasing; and no
/// key left out whose count beats a listed one.
pub open spec fn is_top_n(r: Seq<Seq<char>>, m: Map<Seq<char>, nat>, n: int) -> bool {
    &&& r.len() == (if m.dom().len() < n {
        m.dom().len() as int
    } else {
        n
    })
    &&& (forall|p: int| 0 <= p < r.len() ==> m.contains_key(r[p]))
    &&& (forall|p: int, q: int| 0 <= p < q < r.len() ==> r[p] != r[q])
    &&& (forall|p: int, q: int| 0 <= p < q < r.len() ==> m[r[q]] <= m[r[p]])
    &&& (forall|k: Seq<char>, p: int|
        m.contains_key(k) && !r.contains(k) && 0 <= p < r.len() ==> m[k] <= m[r[p]])
}

impl FrequencyTable {
    /// The keys with the `n` highest counts, most frequent first; ties are
    /// broken by the order in which the keys were first recorded.
    #[verifier::loop_isolation(false)]
    pub fn top_n(&self, n: usize) -> (r: Vec<String>)
        requires
            self.wf(),
        ensures
            is_top_n(r@.map_values(|s: String| s@), self@, n as int),
    {
        proof {
            lemma_map_of_props(self.entries@);
        }
        let ghost m = self@;
        let mut remaining: Vec<(String, usize)> = Vec::new();
        let mut idx: usize = 0;
        while idx < self.entries.len()
            invariant
                idx <= self.entries@.len(),
                remaining@.len() == idx,
                forall|p: int| 0 <= p < idx ==> remaining@[p] == self.entries@[p],
            decreases self.entries@.len() - idx,
        {
            let k = self.entries[idx].0.clone();
            let c = self.entries[idx].1;
            remaining.push((k, c));
            idx += 1;
        }
        proof {
            assert(remaining@ =~= self.entries@);
        }
        let mut result: Vec<String> = Vec::new();
        while result.len() < n && remaining.len() > 0
            invariant
                forall|p: int| 0 <= p < remaining@.len() ==> m.contains_key(remaining@[p].0@)
                    && m[remaining@[p].0@] == remaining@[p].1 as nat,
                forall|p: int, q: int| 0 <= p < q < remaining@.len() ==> remaining@[p].0@
                    != remaining@[q].0@,
                forall|p: int| 0 <= p < result@.len() ==> m.contains_key(result@[p]@),
                forall|p: int, q: int| 0 <= p < q < result@.len() ==> result@[p]@ != result@[q]@,
                forall|p: int, q: int| 0 <= p < result@.len() && 0 <= q < remaining@.len()
                    ==> result@[p]@ != remaining@[q].0@,
                forall|p: int, q: int| 0 <= p < q < result@.len() ==> m[result@[q]@]
                    <= m[result@[p]@],
                forall|p: int, q: int| 0 <= p < result@.len() && 0 <= q < remaining@.len()
                    ==> remaining@[q].1 as nat <= m[result@[p]@],
                forall|k: Seq<char>|
                    m.contains_key(k) ==> (exists|p: int|
                        0 <= p < result@.len() && result@[p]@ == k) || (exists|q: int|
                        0 <= q < remaining@.len() && remaining@[q].0@ == k),
                result@.len() + remaining@.len() == m.dom().len(),
                result@.len() <= n,
            decreases remaining@.len(),
        {
            let mut best: usize = 0;
            let mut bi: usize = 1;
            while bi < remaining.len()
                invariant
                    best < bi <= remaining@.len(),
                    forall|q: int| 0 <= q < bi ==> remaining@[q].1 <= remaining@[best as int].1,
                decreases remaining@.len() - bi,
            {
                if remaining[bi].1 > remaining[best].1 {
                    best = bi;
                }
                bi += 1;
            }
            let ghost before = remaining@;
            let ghost rbefore = result@;
            let e = remaining.remove(best);
            let ghost ek = e.0@;
            let ghost ec = e.1;
            result.push(e.0);
            proof {
                assert(result@.len() == rbefore.len() + 1);
                assert(result@[result@.len() - 1]@ == ek);
                assert(forall|p: int| 0 <= p < rbefore.len() ==> result@[p] == rbefore[p]);
                assert(forall|q: int|
                    0 <= q < remaining@.len() ==> remaining@[q] == (if q < best {
                        before[q]
                    } else {
                        before[q + 1]
                    }));
                assert(m.contains_key(ek) && m[ek] == ec as nat);
                assert forall|k: Seq<char>| m.contains_key(k) implies (exists|p: int|
                    0 <= p < result@.len() && result@[p]@ == k) || (exists|q: int|
                    0 <= q < remaining@.len() && remaining@[q].0@ == k) by {
                    if exists|p: int| 0 <= p < rbefore.len() && rbefore[p]@ == k {
                        let p0 = choose|p: int| 0 <= p < rbefore.len() && rbefore[p]@ == k;
                        assert(result@[p0]@ == k);
                    } else {
                        let q0 = choose|q: int| 0 <= q < before.len() && before[q].0@ == k;
                        if q0 == best {
                            assert(result@[result@.len() - 1]@ == k);
                        } else if q0 < best {
                            assert(remaining@[q0].0@ == k);
                        } else {
                            assert(remaining@[q0 - 1].0@ == k);
                        }
                    }
                }
            }
        }
        proof {
            let rv = result@.map_values(|s: String| s@);
            assert(rv.len() == result@.len());
            assert(forall|p: int| 0 <= p < result@.len() ==> rv[p] == result@[p]@);
            if remaining@.len() == 0 {
                assert(result@.len() == m.dom().len());
            } else {
                assert(result@.len() == n);
            }
            assert forall|k: Seq<char>, p: int|
                m.contains_key(k) && !rv.contains(k) && 0 <= p < rv.len() implies m[k]
                <= m[rv[p]] by {
                if exists|i: int| 0 <= i < result@.len() && result@[i]@ == k {
                    let i0 = choose|i: int| 0 <= i < result@.len() && result@[i]@ == k;
                    assert(0 <= i0 < rv.len() && rv[i0] == k);
                    assert(rv.contains(k));
                } else {
                    let q0 = choose|q: int|
                        0 <= q < remaining@.len() && remaining@[q].0@ == k;
                    assert(m[k] == remaining@[q0].1 as nat);
                }
            }
        }
        result
    }
}

/// The views of the strings in `lines`.
pub open spec fn views_of(lines: Seq<String>) -> Seq<Seq<char>> {
    lines.map_values(|l: String| l@)
}

/// Count how often each raw line occurs in `lines`.
#[verifier::loop_isolation(false)]
pub fn invocation_frequency_of(lines: &Vec<String>) -> (t: FrequencyTable)
    ensures
        t.wf(),
        t@ == invocation_freq(views_of(lines@)),
{
    let ghost lv = views_of(lines@);
    let mut t = FrequencyTable::new();
    let mut i: usize = 0;
    proof {
        assert(lv.take(0) =~= Seq::<Seq<char>>::empty());
    }
    while i < lines.len()
        invariant
            i <= lines@.len(),
            t.wf(),
            t@ == invocation_freq(lv.take(i as int)),
        decreases lines@.len() - i,
    {
        proof {
            lemma_invocation_freq_bounds(lv.take(i as int));
            assert(lv.take(i as int).len() == i);
            assert(lv.take(i + 1).drop_last() =~= lv.take(i as int));
            assert(lv.take(i + 1).last() == lines@[i as int]@);
        }
        let line = lines[i].clone();
        t.increment(line);
        i += 1;
    }
    proof {
        assert(lv.take(lines@.len() as int) =~= lv);
    }
    t
}

/// Count how often each command token occurs in `lines`; lines without a
/// command token are skipped.
#[verifier::loop_isolation(false)]
pub fn command_frequency_of(lines: &Vec<String>) -> (t: FrequencyTable)
    ensures
        t.wf(),
        t@ == command_freq(views_of(lines@)),
{
    let ghost lv = views_of(lines@);
    let mut t = FrequencyTable::new();
    let mut i: usize = 0;
    proof {
        assert(lv.take(0) =~= Seq::<Seq<char>>::empty());
    }
    while i < lines.len()
        invariant
            i <= lines@.len(),
            t.wf(),
            t@ == command_freq(lv.take(i as int)),
        decreases lines@.len() - i,
    {
        proof {
            lemma_command_freq_bounds(lv.take(i as int));
            assert(lv.take(i as int).len() == i);
            assert(lv.take(i + 1).drop_last() =~= lv.take(i as int));
            assert(lv.take(i + 1).last() == lines@[i as int]@);
        }
        match crate::classify::command_of_line(lines[i].as_str()) {
            Some(c) => {
                t.increment(c);
            },
            None => {},
        }
        i += 1;
    }
    proof {
        assert(lv.take(lines@.len() as int) =~= lv);
    }
    t
}

/// The sum of the counts in a finite count map.
pub open spec fn sum_counts(m: Map<Seq<char>, nat>) -> nat
    decreases m.dom().len(),
    via sum_counts_decreases
{
    if m.dom().finite() && m.dom().len() > 0 {
        let k = m.dom().choose();
        m[k] + sum_counts(m.remove(k))
    } else {
        0
    }
}

#[via_fn]
proof fn sum_counts_decreases(m: Map<Seq<char>, nat>) {
    if m.dom().finite() && m.dom().len() > 0 {
        if !(exists|k: Seq<char>| m.dom().contains(k)) {
            assert(m.dom() =~= Set::<Seq<char>>::empty());
        }
        let k = m.dom().choose();
        assert(m.dom().contains(k));
        assert(m.remove(k).dom() =~= m.dom().remove(k));
    }
}

/// Taking one key out of a finite count map takes its count off the sum.
proof fn lemma_sum_remove(m: Map<Seq<char>, nat>, k: Seq<char>)
    requires
        m.dom().finite(),
        m.contains_key(k),
    ensures
        sum_counts(m) == m[k] + sum_counts(m.remove(k)),
    decreases m.dom().len(),
{
    assert(m.dom().remove(k).len() == m.dom().len() - 1);
    let k0 = m.dom().choose();
    assert(m.dom().contains(k0));
    assert(sum_counts(m) == m[k0] + sum_counts(m.remove(k0)));
    if k0 == k {
    } else {
        assert(m.remove(k0).dom() =~= m.dom().remove(k0));
        assert(m.remove(k).dom() =~= m.dom().remove(k));
        lemma_sum_remove(m.remove(k0), k);
        lemma_sum_remove(m.remove(k), k0);
        assert(m.remove(k0).remove(k) =~= m.remove(k).remove(k0));
        assert(m.remove(k0)[k] == m[k]);
        assert(m.remove(k)[k0] == m[k0]);
    }
}

/// Recording one more occurrence raises the sum of the counts by one.
proof fn lemma_sum_bump(m: Map<Seq<char>, nat>, k: Seq<char>)
    requires
        m.dom().finite(),
    ensures
        sum_counts(bump(m, k)) == sum_counts(m) + 1,
{
    let b = bump(m, k);
    assert(b.dom() =~= m.dom().insert(k));
    lemma_sum_remove(b, k);
    assert(b.remove(k) =~= m.remove(k));
    if m.contains_key(k) {
        lemma_sum_remove(m, k);
    } else {
        assert(m.remove(k) =~= m);
    }
}

/// The counts in the command map add up to the number of lines that
/// yielded a command token.
pub proof fn lemma_command_freq_total(lines: Seq<Seq<char>>)
    ensures
        sum_counts(command_freq(lines)) == classified_count(lines),
    decreases lines.len(),
{
    if lines.len() == 0 {
        assert(command_freq(lines).dom() =~= Set::<Seq<char>>::empty());
    } else {
        lemma_command_freq_total(lines.drop_last());
        lemma_command_freq_bounds(lines.drop_last());
        match command_of(lines.last()) {
            Some(c) => {
                lemma_sum_bump(command_freq(lines.drop_last()), c);
            },
            None => {},
        }
    }
}

/// The counts in the invocation map add up to the number of lines.
pub proof fn lemma_invocation_freq_total(lines: Seq<Seq<char>>)
    ensures
        sum_counts(invocation_freq(lines)) == lines.len(),
    decreases lines.len(),
{
    if lines.len() == 0 {
        assert(invocation_freq(lines).dom() =~= Set::<Seq<char>>::empty());
    } else {
        lemma_invocation_freq_total(lines.drop_last());
        lemma_invocation_freq_bounds(lines.drop_last());
        lemma_sum_bump(invocation_freq(lines.drop_last()), lines.last());
    }
}

/// A line that is one variable assignment (no space, and a `=` somewhere)
/// yields no command token: it leaves the command map as it was, while it
/// is still counted as an invocation.
pub proof fn lemma_assignment_only_line(lines: Seq<Seq<char>>, line: Seq<char>)
    requires
        !line.contains(' '),
        line.contains('='),
    ensures
        command_of(line) is None,
        command_freq(lines.push(line)) == command_freq(lines),
        invocation_freq(lines.push(line)) == bump(invocation_freq(lines), line),
{
    crate::classify::lemma_first_space_bounds(line);
    assert(crate::classify::first_space(line) == line.len()) by {
        if crate::classify::first_space(line) < line.len() {
            assert(line[crate::classify::first_space(line) as int] == ' ');
        }
    }
    assert(line.take(line.len() as int) =~= line);
    assert(command_of(line) is None);
    assert(lines.push(line).drop_last() =~= lines);
    assert(lines.push(line).last() == line);
}

} // verus!
