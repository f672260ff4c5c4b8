use vstd::prelude::*;

use vstd::string::StringExecFns;

use crate::MetricsError;
use crate::metrics::{
    find_key, keys_distinct, lemma_key_index_of, line_str, seq_has_key, seq_key_index,
};
use crate::render::i64_to_string;

verus! {

/// A named-counter facility over a fixed set of names: the names are given
/// once at construction, every counter starts at zero, and a name outside
/// the set is rejected rather than created.
#[derive(Debug)]
pub struct AmapMetrics {
    pub keys: Vec<String>,
    pub counts: Vec<i64>,
}

impl AmapMetrics {
    /// One count per name, and no name twice.
    pub open spec fn wf(self) -> bool {
        &&& self.keys@.len() == self.counts@.len()
        &&& keys_distinct(self.keys@)
    }

    /// A counter under the name `k` exists.
    pub open spec fn spec_has(self, k: Seq<char>) -> bool {
        seq_has_key(self.keys@, k)
    }

    /// The count under the name `k`.
    pub open spec fn spec_count(self, k: Seq<char>) -> i64
        recommends
            self.spec_has(k),
    {
        self.counts@[seq_key_index(self.keys@, k)]
    }

    /// Creates the facility over the given names, every counter at zero.  A
    /// name repeated in the list makes one counter.
    pub fn new(names: Vec<String>) -> (m: AmapMetrics)
        ensures
            m.wf(),
            forall|k: Seq<char>| #[trigger] m.spec_has(k) == seq_has_key(names@, k),
            forall|k: Seq<char>| #[trigger] m.spec_has(k) ==> m.spec_count(k) == 0,
    {
        let n = names.len();
        let mut keys: Vec<String> = Vec::new();
        let mut counts: Vec<i64> = Vec::new();
        let mut i: usize = 0;
        while i < n
            invariant
                n == names@.len(),
                0 <= i <= n,
                keys@.len() == counts@.len(),
                keys_distinct(keys@),
                forall|q: int| 0 <= q < counts@.len() ==> counts@[q] == 0,
                forall|k: Seq<char>|
                    #[trigger] seq_has_key(keys@, k) == exists|p: int|
                        0 <= p < i && #[trigger] names@[p]@ == k,
            decreases n - i,
        {
            let ghost prev = keys@;
            match find_key(&keys, &names[i]) {
                Some(_) => {
                    proof {
                        assert forall|k: Seq<char>| #[trigger]
                            seq_has_key(keys@, k) == exists|p: int|
                                0 <= p < i + 1 && #[trigger] names@[p]@ == k by {
                            if seq_has_key(keys@, k) {
                                assert(exists|p: int| 0 <= p < i && #[trigger] names@[p]@ == k);
                            }
                            if exists|p: int| 0 <= p < i + 1 && #[trigger] names@[p]@ == k {
                                let p = choose|p: int|
                                    0 <= p < i + 1 && #[trigger] names@[p]@ == k;
                                if p < i {
                                    assert(seq_has_key(keys@, k));
                                } else {
                                    assert(names@[i as int]@ == k);
                                    assert(seq_has_key(keys@, k));
                                }
                            }
                        }
                    }
                },
                None => {
                    keys.push(names[i].clone());
                    counts.push(0);
                    proof {
                        let m = prev.len() as int;
                        assert forall|p: int, q: int|
                            0 <= p < q < keys@.len() implies keys@[p]@ != keys@[q]@ by {
                            if q < m {
                                assert(prev[p]@ != prev[q]@);
                            } else {
                                if prev[p]@ == keys@[q]@ {
                                    assert(seq_has_key(prev, keys@[q]@));
                                }
                            }
                        }
                        assert forall|k: Seq<char>| #[trigger]
                            seq_has_key(keys@, k) == exists|p: int|
                                0 <= p < i + 1 && #[trigger] names@[p]@ == k by {
                            if seq_has_key(keys@, k) {
                                let p = seq_key_index(keys@, k);
                                assert(0 <= p < keys@.len() && keys@[p]@ == k);
                                if p < m {
                                    assert(seq_has_key(prev, k));
                                    assert(exists|p2: int|
                                        0 <= p2 < i && #[trigger] names@[p2]@ == k);
                                } else {
                                    assert(names@[i as int]@ == k);
                                }
                            }
                            if exists|p: int| 0 <= p < i + 1 && #[trigger] names@[p]@ == k {
                                let p = choose|p: int|
                                    0 <= p < i + 1 && #[trigger] names@[p]@ == k;
                                if p < i {
                                    assert(seq_has_key(prev, k));
                                    let q = seq_key_index(prev, k);
                                    assert(0 <= q < prev.len() && prev[q]@ == k);
                                    assert(keys@[q]@ == k);
                                    assert(seq_has_key(keys@, k));
                                } else {
                                    assert(keys@[m]@ == k);
                                    assert(seq_has_key(keys@, k));
                                }
                            }
                        }
                    }
                },
            }
            i = i + 1;
        }
        let m = AmapMetrics { keys, counts };
        proof {
            assert forall|k: Seq<char>| #[trigger] m.spec_has(k) implies m.spec_count(k) == 0 by {
                let p = seq_key_index(m.keys@, k);
                assert(0 <= p < m.keys@.len() && m.keys@[p]@ == k);
            }
        }
        m
    }

    /// Raises the counter under `key` by one.  A name outside the fixed set
    /// is rejected; a counter already at the upper machine limit is left
    /// unchanged and reported.
    pub fn inc(&mut self, key: &String) -> (r: Result<(), MetricsError>)
        requires
            old(self).wf(),
        ensures
            final(self).wf(),
            forall|k2: Seq<char>|
                #[trigger] final(self).spec_has(k2) == old(self).spec_has(k2),
            match r {
                Ok(()) => {
                    &&& old(self).spec_has(key@)
                    &&& old(self).spec_count(key@) < i64::MAX
                    &&& final(self).spec_count(key@) == old(self).spec_count(key@) + 1
                    &&& forall|k2: Seq<char>|
                        k2 != key@ && old(self).spec_has(k2) ==> #[trigger] final(self).spec_count(k2) == old(self).spec_count(k2)
                },
                Err(MetricsError::KeyNotFound) => {
                    &&& !old(self).spec_has(key@)
                    &&& *final(self) == *old(self)
                },
                Err(e) => {
                    &&& e == MetricsError::CounterOverflow
                    &&& old(self).spec_has(key@)
                    &&& old(self).spec_count(key@) == i64::MAX
                    &&& *final(self) == *old(self)
                },
            },
    {
        match find_key(&self.keys, key) {
            None => Err(MetricsError::KeyNotFound),
            Some(i) => {
                proof {
                    lemma_key_index_of(self.keys@, key@, i as int);
                }
                let c = self.counts[i];
                if c == i64::MAX {
                    return Err(MetricsError::CounterOverflow);
                }
                self.counts[i] = c + 1;
                proof {
                    lemma_amap_update(*old(self), *self, i as int, key@);
                }
                Ok(())
            },
        }
    }

    /// Lowers the counter under `key` by one.  A name outside the fixed set
    /// is rejected; a counter already at the lower machine limit is left
    /// unchanged and reported.
    pub fn dec(&mut self, key: &String) -> (r: Result<(), MetricsError>)
        requires
            old(self).wf(),
        ensures
            final(self).wf(),
            forall|k2: Seq<char>|
                #[trigger] final(self).spec_has(k2) == old(self).spec_has(k2),
            match r {
                Ok(()) => {
                    &&& old(self).spec_has(key@)
                    &&& old(self).spec_count(key@) > i64::MIN
                    &&& final(self).spec_count(key@) == old(self).spec_count(key@) - 1
                    &&& forall|k2: Seq<char>|
                        k2 != key@ && old(self).spec_has(k2) ==> #[trigger] final(self).spec_count(k2) == old(self).spec_count(k2)
                },
                Err(MetricsError::KeyNotFound) => {
                    &&& !old(self).spec_has(key@)
                    &&& *final(self) == *old(self)
                },
                Err(e) => {
                    &&& e == MetricsError::CounterUnderflow
                    &&& old(self).spec_has(key@)
                    &&& old(self).spec_count(key@) == i64::MIN
                    &&& *final(self) == *old(self)
                },
            },
    {
        match find_key(&self.keys, key) {
            None => Err(MetricsError::KeyNotFound),
            Some(i) => {
                proof {
                    lemma_key_index_of(self.keys@, key@, i as int);
                }
                let c = self.counts[i];
                if c == i64::MIN {
                    return Err(MetricsError::CounterUnderflow);
                }
                self.counts[i] = c - 1;
                proof {
                    lemma_amap_update(*old(self), *self, i as int, key@);
                }
                Ok(())
            },
        }
    }

    /// The rendering of the first `i` counters: one `"name: count"` line
    /// each, every line closed by a newline.
    pub open spec fn lines_prefix(self, i: int) -> Seq<char>
        decreases i,
    {
        if i <= 0 {
            Seq::empty()
        } else {
            self.lines_prefix(i - 1) + line_str(self.keys@[i - 1]@, self.counts@[i - 1])
                + seq!['\n']
        }
    }

    /// The full rendering: every counter as a `"name: count"` line, each
    /// closed by a newline.
    pub open spec fn render_spec(self) -> Seq<char> {
        self.lines_prefix(self.keys@.len() as int)
    }

    /// Renders every counter as a `"name: count"` line.
    pub fn render(&self) -> (s: String)
        requires
            self.wf(),
        ensures
            s@ == self.render_spec(),
    {
        let mut s = String::new();
        let n = self.keys.len();
        let mut i: usize = 0;
        while i < n
            invariant
                self.wf(),
                n == self.keys@.len(),
                0 <= i <= n,
                s@ == self.lines_prefix(i as int),
            decreases n - i,
        {
            s.append(self.keys[i].as_str());
            proof {
                reveal_strlit(": ");
                assert(": "@ =~= seq![':', ' ']);
            }
            s.append(": ");
            let t = i64_to_string(self.counts[i]);
            s.append(t.as_str());
            proof {
                reveal_strlit("\n");
                assert("\n"@ =~= seq!['\n']);
            }
            s.append("\n");
            proof {
                assert(s@ =~= self.lines_prefix(i as int + 1));
            }
            i = i + 1;
        }
        s
    }
}

/// After a count is rewritten in place at the position of `k`, every other
/// name keeps its presence and its count.
proof fn lemma_amap_update(pre: AmapMetrics, post: AmapMetrics, i: int, k: Seq<char>)
    requires
        pre.wf(),
        0 <= i < pre.keys@.len(),
        pre.keys@[i]@ == k,
        post.keys@ == pre.keys@,
        post.counts@ == pre.counts@.update(i, post.counts@[i]),
    ensures
        post.wf(),
        post.spec_has(k),
        post.spec_count(k) == post.counts@[i],
        forall|k2: Seq<char>| #[trigger] post.spec_has(k2) == pre.spec_has(k2),
        forall|k2: Seq<char>|
            k2 != k && pre.spec_has(k2) ==> #[trigger] post.spec_count(k2) == pre.spec_count(k2),
{
    lemma_key_index_of(post.keys@, k, i);
    assert forall|k2: Seq<char>|
        k2 != k && pre.spec_has(k2) implies #[trigger] post.spec_count(k2) == pre.spec_count(
        k2,
    ) by {
        let p = seq_key_index(pre.keys@, k2);
        assert(0 <= p < pre.keys@.len() && pre.keys@[p]@ == k2);
        lemma_key_index_of(post.keys@, k2, p);
        assert(p != i);
    }
}

} // verus!
