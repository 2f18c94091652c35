use vstd::prelude::*;

verus! {

/// Occurrence counts of strings, most frequent first.
pub struct Tally {
    counts: Vec<(String, u64)>,
}

/// Keys are distinct, counts are at least one and never increase along the
/// sequence.
pub open spec fn tally_wf(v: Seq<(Seq<char>, u64)>) -> bool {
    &&& forall|i: int, j: int| 0 <= i < j < v.len() ==> v[i].0 != v[j].0
    &&& forall|i: int, j: int| 0 <= i < j < v.len() ==> v[i].1 >= v[j].1
    &&& forall|i: int| 0 <= i < v.len() ==> v[i].1 >= 1
}

/// The count of `k` in `v`: that of its entry, or zero where it has none.
pub open spec fn count_of(v: Seq<(Seq<char>, u64)>, k: Seq<char>) -> u64 {
    if exists|i: int| 0 <= i < v.len() && v[i].0 == k {
        v[choose|i: int| 0 <= i < v.len() && v[i].0 == k].1
    } else {
        0
    }
}

/// One more occurrence, held at `u64::MAX`.
pub open spec fn bumped(c: u64) -> u64 {
    if c == u64::MAX {
        c
    } else {
        (c + 1) as u64
    }
}

proof fn lemma_count_at(v: Seq<(Seq<char>, u64)>, i: int)
    requires
        tally_wf(v),
        0 <= i < v.len(),
    ensures
        count_of(v, v[i].0) == v[i].1,
{
    let k = v[i].0;
    assert(exists|j: int| 0 <= j < v.len() && v[j].0 == k);
    let j = choose|j: int| 0 <= j < v.len() && v[j].0 == k;
    if j != i {
        if j < i {
            assert(v[j].0 != v[i].0);
        } else {
            assert(v[i].0 != v[j].0);
        }
    }
}

impl View for Tally {
    type V = Seq<(Seq<char>, u64)>;

    closed spec fn view(&self) -> Seq<(Seq<char>, u64)> {
        Seq::new(self.counts@.len(), |i: int| (self.counts@[i].0@, self.counts@[i].1))
    }
}

impl Tally {
    /// Whether the counts are well formed.
    pub closed spec fn wf(&self) -> bool {
        tally_wf(self@)
    }

    /// An empty tally.
    pub fn new() -> (r: Tally)
        ensures
            r.wf(),
            r@.len() == 0,
    {
        Tally { counts: Vec::new() }
    }

    /// The counts, most frequent first.
    pub fn entries(&self) -> (r: &Vec<(String, u64)>)
        ensures
            r@.len() == self@.len(),
            forall|i: int| 0 <= i < r@.len() ==> r@[i].0@ == self@[i].0 && r@[i].1 == self@[i].1,
    {
        &self.counts
    }

    fn position(&self, key: &String) -> (r: Option<usize>)
        ensures
            r matches Some(i) ==> i < self@.len() && self@[i as int].0 == key@,
            r is None ==> forall|k: int| 0 <= k < self@.len() ==> self@[k].0 != key@,
    {
        let n = self.counts.len();
        let mut i: usize = 0;
        while i < n
            invariant
                n == self@.len(),
                i <= n,
                forall|k: int| 0 <= k < i ==> self@[k].0 != key@,
            decreases n - i,
        {
            if self.counts[i].0 == *key {
                return Some(i);
            }
            i = i + 1;
        }
        None
    }

    fn first_with_count(&self, c: u64, upto: usize) -> (r: usize)
        requires
            self.wf(),
            upto < self@.len(),
            self@[upto as int].1 == c,
        ensures
            r <= upto,
            self@[r as int].1 == c,
            forall|k: int| 0 <= k < r ==> self@[k].1 > c,
    {
        let mut j: usize = 0;
        while j < upto
            invariant
                self.wf(),
                upto < self@.len(),
                self@[upto as int].1 == c,
                j <= upto,
                forall|k: int| 0 <= k < j ==> self@[k].1 > c,
            decreases upto - j,
        {
            if self.counts[j].1 == c {
                return j;
            }
            assert(self@[j as int].1 >= self@[upto as int].1);
            j = j + 1;
        }
        j
    }

    /// Counts one more occurrence of `key`.
    pub fn add(&mut self, key: String)
        requires
            old(self).wf(),
        ensures
            final(self).wf(),
            forall|k: Seq<char>|
                count_of(final(self)@, k) == if k == key@ {
                    bumped(count_of(old(self)@, k))
                } else {
                    count_of(old(self)@, k)
                },
    {
        let ghost v0 = self@;
        let ghost key_view = key@;
        match self.position(&key) {
            None => {
                self.counts.push((key, 1));
                let ghost v1 = self@;
                assert(v1 =~= v0.push((key_view, 1u64)));
                proof {
                    assert(tally_wf(v1));
                    assert forall|k: Seq<char>|
                        count_of(v1, k) == if k == key_view {
                            bumped(count_of(v0, k))
                        } else {
                            count_of(v0, k)
                        } by {
                        lemma_count_at(v1, v0.len() as int);
                        if exists|m: int| 0 <= m < v0.len() && v0[m].0 == k {
                            let m = choose|m: int| 0 <= m < v0.len() && v0[m].0 == k;
                            lemma_count_at(v0, m);
                            lemma_count_at(v1, m);
                        } else if k != key_view {
                            assert(!exists|m: int| 0 <= m < v1.len() && v1[m].0 == k) by {
                                if exists|m: int| 0 <= m < v1.len() && v1[m].0 == k {
                                    let m = choose|m: int| 0 <= m < v1.len() && v1[m].0 == k;
                                    assert(v0[m].0 == k);
                                }
                            }
                        }
                    }
                }
            },
            Some(i) => {
                let c = self.counts[i].1;
                if c == u64::MAX {
                    proof {
                        lemma_count_at(v0, i as int);
                    }
                    return;
                }
                let j = self.first_with_count(c, i);
                if j == i {
                    self.counts[i] = (key, c + 1);
                } else {
                    let moved = self.counts[j].0.clone();
                    self.counts[j] = (key, c + 1);
                    self.counts[i] = (moved, c);
                }
                let ghost v1 = self@;
                proof {
                    assert(v1 =~= v0.update(i as int, v0[j as int]).update(
                        j as int,
                        (key_view, (c + 1) as u64),
                    ));
                    assert forall|a: int, b: int| 0 <= a < b < v1.len() implies v1[a].1 >= v1[b].1 by {
                        assert(v0[a].1 >= v0[b].1);
                        if a == j as int || b == j as int || a == i as int || b == i as int {
                            if b < v0.len() {
                                assert(v0[j as int].1 >= v0[b].1);
                                assert(v0[a].1 >= v0[i as int].1 || a > i);
                            }
                        }
                    }
                    assert forall|a: int, b: int| 0 <= a < b < v1.len() implies v1[a].0 != v1[b].0 by {
                        assert(v0[a].0 != v0[b].0);
                        if a != i && a != j && b != i && b != j {
                        } else if a == j as int && b == i as int {
                            assert(v0[i as int].0 != v0[j as int].0 || i == j);
                        } else if a == j as int {
                            assert(v0[i as int].0 != v0[b].0 || b == i) by {
                                if b < i {
                                    assert(v0[b].0 != v0[i as int].0);
                                }
                            }
                        } else if b == j as int {
                            assert(v0[a].0 != v0[i as int].0);
                        } else if a == i as int {
                            assert(v0[j as int].0 != v0[b].0);
                        } else {
                            assert(v0[a].0 != v0[j as int].0);
                        }
                    }
                    assert(tally_wf(v1));
                    lemma_count_at(v0, i as int);
                    lemma_count_at(v1, j as int);
                    assert forall|k: Seq<char>|
                        count_of(v1, k) == if k == key_view {
                            bumped(count_of(v0, k))
                        } else {
                            count_of(v0, k)
                        } by {
                        if k != key_view {
                            if exists|m: int| 0 <= m < v0.len() && v0[m].0 == k {
                                let m = choose|m: int| 0 <= m < v0.len() && v0[m].0 == k;
                                lemma_count_at(v0, m);
                                if m == j as int {
                                    lemma_count_at(v1, i as int);
                                } else {
                                    lemma_count_at(v1, m);
                                }
                            } else {
                                assert(!exists|m: int| 0 <= m < v1.len() && v1[m].0 == k) by {
                                    if exists|m: int| 0 <= m < v1.len() && v1[m].0 == k {
                                        let m = choose|m: int| 0 <= m < v1.len() && v1[m].0 == k;
                                        if m == i as int {
                                            assert(v0[j as int].0 == k);
                                        } else {
                                            assert(v0[m].0 == k);
                                        }
                                    }
                                }
                            }
                        }
                    }
                }
            },
        }
    }
}

} // verus!
