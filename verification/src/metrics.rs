use vstd::prelude::*;
use vstd::string::StringExecFns;

pub mod amap;

use crate::MetricsError;
use crate::render::int_str;
use crate::render::i64_to_string;

verus! {

/// No two entries carry the same name.
pub open spec fn keys_distinct(keys: Seq<String>) -> bool {
    forall|p: int, q: int|
        #![trigger keys[p], keys[q]]
        0 <= p < q < keys.len() ==> keys[p]@ != keys[q]@
}

/// Some entry carries the name `k`.
pub open spec fn seq_has_key(keys: Seq<String>, k: Seq<char>) -> bool {
    exists|p: int| 0 <= p < keys.len() && #[trigger] keys[p]@ == k
}

/// The position of the entry that carries the name `k`.
pub open spec fn seq_key_index(keys: Seq<String>, k: Seq<char>) -> int {
    choose|p: int| 0 <= p < keys.len() && #[trigger] keys[p]@ == k
}

/// Under distinct names, the position of a name is the one position that
/// carries it.
pub proof fn lemma_key_index_of(keys: Seq<String>, k: Seq<char>, i: int)
    requires
        keys_distinct(keys),
        0 <= i < keys.len(),
        keys[i]@ == k,
    ensures
        seq_has_key(keys, k),
        seq_key_index(keys, k) == i,
{
    assert(seq_has_key(keys, k));
    let p = seq_key_index(keys, k);
    if p < i {
        assert(keys[p]@ != keys[i]@);
    } else if i < p {
        assert(keys[i]@ != keys[p]@);
    }
}

/// Looks a name up among the entries, returning its position.
pub fn find_key(keys: &Vec<String>, key: &String) -> (r: Option<usize>)
    ensures
        match r {
            Some(i) => i < keys@.len() && keys@[i as int]@ == key@,
            None => !seq_has_key(keys@, key@),
        },
{
    let n = keys.len();
    let mut i: usize = 0;
    while i < n
        invariant
            n == keys@.len(),
            0 <= i <= n,
            forall|p: int| 0 <= p < i ==> #[trigger] keys@[p]@ != key@,
        decreases n - i,
    {
        if keys[i] == *key {
            return Some(i);
        }
        i = i + 1;
    }
    None
}

/// The rendered line of one counter: the name, `": "`, and the count.
pub open spec fn line_str(key: Seq<char>, v: i64) -> Seq<char> {
    key + seq![':', ' '] + int_str(v as int)
}

/// A thread-safe named-counter facility's core: a set of named signed
/// counters, each created at zero on first reference, incremented and
/// decremented by name, and copied out whole by `snapshot`.
#[derive(Debug)]
pub struct Metrics {
    pub keys: Vec<String>,
    pub counts: Vec<i64>,
}

impl Metrics {
    /// One count per name, and no name twice.
    pub open spec fn wf(self) -> bool {
        &&& self.keys@.len() == self.counts@.len()
        &&& keys_distinct(self.keys@)
    }

    /// A counter under the name `k` exists.
    pub open spec fn spec_has(self, k: Seq<char>) -> bool {
        seq_has_key(self.keys@, k)
    }

    /// The count under the name `k`; a name never referenced counts as zero.
    pub open spec fn spec_count(self, k: Seq<char>) -> i64 {
        if self.spec_has(k) {
            self.counts@[seq_key_index(self.keys@, k)]
        } else {
            0
        }
    }

    /// Creates an empty facility: no counters yet.
    pub fn new() -> (m: Metrics)
        ensures
            m.wf(),
            forall|k: Seq<char>| !m.spec_has(k),
            m.keys@.len() == 0,
    {
        Metrics { keys: Vec::new(), counts: Vec::new() }
    }

    /// Raises the counter under `key` by one, creating it at zero first if
    /// it was never referenced.  A counter already at the upper machine
    /// limit is left unchanged and reported.
    pub fn inc(&mut self, key: &String) -> (r: Result<(), MetricsError>)
        requires
            old(self).wf(),
        ensures
            final(self).wf(),
            match r {
                Ok(()) => {
                    &&& old(self).spec_count(key@) < i64::MAX
                    &&& final(self).spec_has(key@)
                    &&& final(self).spec_count(key@) == old(self).spec_count(key@) + 1
                    &&& forall|k2: Seq<char>|
                        k2 != key@ ==> #[trigger] final(self).spec_has(k2) == old(self).spec_has(k2)
                    &&& forall|k2: Seq<char>|
                        k2 != key@ ==> #[trigger] final(self).spec_count(k2) == old(self).spec_count(k2)
                },
                Err(e) => {
                    &&& e == MetricsError::CounterOverflow
                    &&& old(self).spec_count(key@) == i64::MAX
                    &&& *final(self) == *old(self)
                },
            },
    {
        match find_key(&self.keys, key) {
            Some(i) => {
                proof {
                    lemma_key_index_of(self.keys@, key@, i as int);
                }
                let c = self.counts[i];
                if c == i64::MAX {
                    return Err(MetricsError::CounterOverflow);
                }
                self.counts[i] = c + 1;
                proof {
                    lemma_metrics_update(*old(self), *self, i as int, key@);
                }
                Ok(())
            },
            None => {
                self.keys.push(key.clone());
                self.counts.push(1);
                proof {
                    lemma_metrics_insert(*old(self), *self, key@, 1);
                }
                Ok(())
            },
        }
    }

    /// Lowers the counter under `key` by one, creating it at zero first if
    /// it was never referenced.  A counter already at the lower machine
    /// limit is left unchanged and reported.
    pub fn dec(&mut self, key: &String) -> (r: Result<(), MetricsError>)
        requires
            old(self).wf(),
        ensures
            final(self).wf(),
            match r {
                Ok(()) => {
                    &&& old(self).spec_count(key@) > i64::MIN
                    &&& final(self).spec_has(key@)
                    &&& final(self).spec_count(key@) == old(self).spec_count(key@) - 1
                    &&& forall|k2: Seq<char>|
                        k2 != key@ ==> #[trigger] final(self).spec_has(k2) == old(self).spec_has(k2)
                    &&& forall|k2: Seq<char>|
                        k2 != key@ ==> #[trigger] final(self).spec_count(k2) == old(self).spec_count(k2)
                },
                Err(e) => {
                    &&& e == MetricsError::CounterUnderflow
                    &&& old(self).spec_count(key@) == i64::MIN
                    &&& *final(self) == *old(self)
                },
            },
    {
        match find_key(&self.keys, key) {
            Some(i) => {
                proof {
                    lemma_key_index_of(self.keys@, key@, i as int);
                }
                let c = self.counts[i];
                if c == i64::MIN {
                    return Err(MetricsError::CounterUnderflow);
                }
                self.counts[i] = c - 1;
                proof {
                    lemma_metrics_update(*old(self), *self, i as int, key@);
                }
                Ok(())
            },
            None => {
                self.keys.push(key.clone());
                self.counts.push(-1);
                proof {
                    lemma_metrics_insert(*old(self), *self, key@, -1i64);
                }
                Ok(())
            },
        }
    }

    /// Copies every counter out as a name/count pair, in the order the
    /// names were first referenced: a point-in-time snapshot.
    pub fn snapshot(&self) -> (r: Vec<(String, i64)>)
        requires
            self.wf(),
        ensures
            r@.len() == self.keys@.len(),
            forall|p: int|
                0 <= p < r@.len() ==> (#[trigger] r@[p]).0@ == self.keys@[p]@ && r@[p].1
                    == self.counts@[p],
    {
        let n = self.keys.len();
        let mut r: Vec<(String, i64)> = Vec::new();
        let mut i: usize = 0;
        while i < n
            invariant
                self.wf(),
                n == self.keys@.len(),
                0 <= i <= n,
                r@.len() == i,
                forall|p: int|
                    0 <= p < i ==> (#[trigger] r@[p]).0@ == self.keys@[p]@ && r@[p].1
                        == self.counts@[p],
            decreases n - i,
        {
            r.push((self.keys[i].clone(), self.counts[i]));
            i = i + 1;
        }
        r
    }

    /// The rendering of the first `i` counters, one `"name: count"` line
    /// each, joined by newlines.
    pub open spec fn lines_prefix(self, i: int) -> Seq<char>
        decreases i,
    {
        if i <= 0 {
            Seq::empty()
        } else if i == 1 {
            line_str(self.keys@[0]@, self.counts@[0])
        } else {
            self.lines_prefix(i - 1) + seq!['\n'] + line_str(self.keys@[i - 1]@, self.counts@[i
                - 1])
        }
    }

    /// The full rendering: every counter as a `"name: count"` line, the
    /// lines joined by newlines, and a final newline after them.
    pub open spec fn render_spec(self) -> Seq<char> {
        self.lines_prefix(self.keys@.len() as int) + seq!['\n']
    }

    /// Renders every counter as a `"name: count"` line.
    pub fn render(&self) -> (s: String)
        requires
            self.wf(),
        ensures
            s@ == self.render_spec(),
    {
        let mut s = String::new();
        let n = self.keys.len();
        let mut i: usize = 0;
        while i < n
            invariant
                self.wf(),
                n == self.keys@.len(),
                0 <= i <= n,
                s@ == self.lines_prefix(i as int),
            decreases n - i,
        {
            if i > 0 {
                proof {
                    reveal_strlit("\n");
                    assert("\n"@ =~= seq!['\n']);
                }
                s.append("\n");
            }
            s.append(self.keys[i].as_str());
            proof {
                reveal_strlit(": ");
                assert(": "@ =~= seq![':', ' ']);
            }
            s.append(": ");
            let t = i64_to_string(self.counts[i]);
            s.append(t.as_str());
            proof {
                if i == 0 {
                    assert(self.lines_prefix(1) == line_str(self.keys@[0]@, self.counts@[0]));
                }
                assert(s@ =~= self.lines_prefix(i as int + 1));
            }
            i = i + 1;
        }
        proof {
            reveal_strlit("\n");
            assert("\n"@ =~= seq!['\n']);
        }
        s.append("\n");
        proof {
            assert(s@ =~= self.render_spec());
        }
        s
    }
}

impl Default for Metrics {
    /// The default facility is the empty one.
    fn default() -> (m: Metrics)
        ensures
            m.wf(),
            forall|k: Seq<char>| !m.spec_has(k),
    {
        Metrics::new()
    }
}

/// After a count is rewritten in place at the position of `k`, every other
/// name keeps its presence and its count.
proof fn lemma_metrics_update(pre: Metrics, post: Metrics, i: int, k: Seq<char>)
    requires
        pre.wf(),
        0 <= i < pre.keys@.len(),
        pre.keys@[i]@ == k,
        post.keys@ == pre.keys@,
        post.counts@ == pre.counts@.update(i, post.counts@[i]),
    ensures
        post.wf(),
        post.spec_has(k),
        post.spec_count(k) == post.counts@[i],
        forall|k2: Seq<char>|
            k2 != k ==> #[trigger] post.spec_has(k2) == pre.spec_has(k2),
        forall|k2: Seq<char>|
            k2 != k ==> #[trigger] post.spec_count(k2) == pre.spec_count(k2),
{
    lemma_key_index_of(post.keys@, k, i);
    assert forall|k2: Seq<char>| k2 != k implies #[trigger] post.spec_count(k2)
        == pre.spec_count(k2) by {
        if pre.spec_has(k2) {
            let p = seq_key_index(pre.keys@, k2);
            assert(0 <= p < pre.keys@.len() && pre.keys@[p]@ == k2);
            lemma_key_index_of(post.keys@, k2, p);
            assert(p != i);
        }
    }
}

/// After a fresh name is appended with a first count, it is present with
/// that count, and every other name keeps its presence and its count.
proof fn lemma_metrics_insert(pre: Metrics, post: Metrics, k: Seq<char>, v: i64)
    requires
        pre.wf(),
        !pre.spec_has(k),
        post.keys@.len() == pre.keys@.len() + 1,
        post.keys@[pre.keys@.len() as int]@ == k,
        forall|p: int| 0 <= p < pre.keys@.len() ==> post.keys@[p] == pre.keys@[p],
        post.counts@ == pre.counts@.push(v),
    ensures
        post.wf(),
        post.spec_has(k),
        post.spec_count(k) == v,
        forall|k2: Seq<char>|
            k2 != k ==> #[trigger] post.spec_has(k2) == pre.spec_has(k2),
        forall|k2: Seq<char>|
            k2 != k ==> #[trigger] post.spec_count(k2) == pre.spec_count(k2),
{
    let n = pre.keys@.len() as int;
    assert forall|p: int, q: int| 0 <= p < q < post.keys@.len() implies post.keys@[p]@
        != post.keys@[q]@ by {
        if q < n {
            assert(pre.keys@[p]@ != pre.keys@[q]@);
        } else {
            assert(post.keys@[q]@ == k);
            if pre.keys@[p]@ == k {
                assert(seq_has_key(pre.keys@, k));
            }
        }
    }
    lemma_key_index_of(post.keys@, k, n);
    assert forall|k2: Seq<char>| k2 != k implies #[trigger] post.spec_has(k2) == pre.spec_has(
        k2,
    ) by {
        if post.spec_has(k2) {
            let p = seq_key_index(post.keys@, k2);
            assert(0 <= p < post.keys@.len() && post.keys@[p]@ == k2);
            assert(p != n);
            assert(pre.keys@[p]@ == k2);
        }
        if pre.spec_has(k2) {
            let p = seq_key_index(pre.keys@, k2);
            assert(post.keys@[p]@ == k2);
        }
    }
    assert forall|k2: Seq<char>| k2 != k implies #[trigger] post.spec_count(k2)
        == pre.spec_count(k2) by {
        if pre.spec_has(k2) {
            let p = seq_key_index(pre.keys@, k2);
            assert(0 <= p < pre.keys@.len() && pre.keys@[p]@ == k2);
            assert(post.keys@[p]@ == k2);
            lemma_key_index_of(post.keys@, k2, p);
        }
    }
}

} // verus!
