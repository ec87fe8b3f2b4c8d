use vstd::prelude::*;

use crate::opt_data::clone_vec_copy;
use crate::rng::rand_below;

verus! {

/// An element of a permutation-like representation: what must occur exactly
/// once is the element's key (a tour vertex is its own key; a group visit
/// is keyed by its group).
pub trait PermKey: Copy + Sized {
    spec fn key_spec(self) -> usize;

    fn key(&self) -> (r: usize)
        ensures
            r == self.key_spec(),
    ;
}

impl PermKey for usize {
    open spec fn key_spec(self) -> usize {
        self
    }

    fn key(&self) -> (r: usize) {
        *self
    }
}

/// Positions `k` and `k + 1` of the cycle are linked: the first parent
/// holds, at the next cycle position, the key the second parent holds at
/// this one.
pub open spec fn cycle_linked<K: PermKey>(p1: Seq<K>, p2: Seq<K>, cyc: Seq<usize>, k: int) -> bool {
    p1[cyc[k + 1] as int].key_spec() == p2[cyc[k] as int].key_spec()
}

/// Some element of the sequence carries the given key.
pub open spec fn has_key<K: PermKey>(s: Seq<K>, v: int) -> bool {
    exists|i: int| 0 <= i < s.len() && (#[trigger] s[i].key_spec()) == v
}

/// Every key below the length occurs exactly once: the sequence visits each
/// key exactly once, in some order.
pub open spec fn key_perm<K: PermKey>(s: Seq<K>) -> bool {
    &&& forall|i: int| 0 <= i < s.len() ==> (#[trigger] s[i].key_spec()) < s.len()
    &&& forall|i: int, j: int|
        0 <= i < j < s.len() ==> s[i].key_spec() != s[j].key_spec()
    &&& forall|v: int| 0 <= v < s.len() ==> #[trigger] has_key(s, v)
}

/// A sequence of distinct values below `n` cannot be longer than `n`.
pub proof fn lemma_distinct_bounded_len(s: Seq<usize>, n: int)
    requires
        0 <= n,
        forall|i: int| 0 <= i < s.len() ==> (#[trigger] s[i]) < n,
        forall|i: int, j: int| 0 <= i < j < s.len() ==> s[i] != s[j],
    ensures
        s.len() <= n,
    decreases n,
{
    if n == 0 {
        if s.len() > 0 {
            assert(s[0] < 0);
        }
    } else {
        if exists|i: int| 0 <= i < s.len() && (#[trigger] s[i]) == (n - 1) as usize {
            let i = choose|i: int| 0 <= i < s.len() && (#[trigger] s[i]) == (n - 1) as usize;
            let s2 = s.subrange(0, i) + s.subrange(i + 1, s.len() as int);
            assert forall|k: int| 0 <= k < s2.len() implies (#[trigger] s2[k]) < n - 1 by {
                if k < i {
                    assert(s2[k] == s[k]);
                } else {
                    assert(s2[k] == s[k + 1]);
                }
            }
            assert forall|k: int, l: int| 0 <= k < l < s2.len() implies s2[k] != s2[l] by {
                let ko = if k < i {
                    k
                } else {
                    k + 1
                };
                let lo = if l < i {
                    l
                } else {
                    l + 1
                };
                assert(s2[k] == s[ko] && s2[l] == s[lo]);
            }
            lemma_distinct_bounded_len(s2, n - 1);
        } else {
            assert forall|i: int| 0 <= i < s.len() implies (#[trigger] s[i]) < n - 1 by {
                assert(s[i] != (n - 1) as usize);
            }
            lemma_distinct_bounded_len(s, n - 1);
        }
    }
}

/// Finds a position whose element carries the given key.
pub fn find_key_pos<K: PermKey>(v: &Vec<K>, target: usize) -> (r: Option<usize>)
    ensures
        r matches Some(i) ==> i < v@.len() && v@[i as int].key_spec() == target,
        r is None ==> forall|i: int| 0 <= i < v@.len() ==> v@[i].key_spec() != target,
{
    let mut i: usize = 0;
    while i < v.len()
        invariant
            i <= v@.len(),
            forall|k: int| 0 <= k < i ==> (#[trigger] v@[k].key_spec()) != target,
        decreases v@.len() - i,
    {
        if v[i].key() == target {
            return Some(i);
        }
        i = i + 1;
    }
    None
}

/// What holds of the two offspring of a closed-cycle swap: positions on the
/// cycle exchanged their elements, all others kept them.
proof fn lemma_cycle_swap<K: PermKey>(p1: Seq<K>, p2: Seq<K>, cyc: Seq<usize>, a: Seq<K>, b: Seq<K>)
    requires
        p1.len() == p2.len(),
        p1.len() <= usize::MAX,
        a.len() == p1.len(),
        b.len() == p1.len(),
        key_perm(p1),
        key_perm(p2),
        cyc.len() >= 1,
        forall|k: int| 0 <= k < cyc.len() ==> (#[trigger] cyc[k]) < p1.len(),
        forall|k: int, l: int| 0 <= k < l < cyc.len() ==> cyc[k] != cyc[l],
        forall|k: int| 0 <= k < cyc.len() - 1 ==> #[trigger] cycle_linked(p1, p2, cyc, k),
        p1[cyc[0] as int].key_spec() == p2[cyc[cyc.len() - 1] as int].key_spec(),
        forall|i: int|
            0 <= i < a.len() ==> #[trigger] a[i] == (if cyc.contains(i as usize) {
                p2[i]
            } else {
                p1[i]
            }),
        forall|i: int|
            0 <= i < b.len() ==> #[trigger] b[i] == (if cyc.contains(i as usize) {
                p1[i]
            } else {
                p2[i]
            }),
    ensures
        key_perm(a),
        key_perm(b),
{
    let n = p1.len() as int;
    let m = cyc.len() - 1;
    // the cycle is closed under the successor map "position in p1 of the key
    // that p2 holds here", and under its inverse
    assert forall|i: int, j: int| 0 <= i < j < n implies a[i].key_spec() != a[j].key_spec() by {
        if a[i].key_spec() == a[j].key_spec() {
            let ci = cyc.contains(i as usize);
            let cj = cyc.contains(j as usize);
            if ci && !cj {
                lemma_cycle_mixed_distinct(p1, p2, cyc, i, j);
            } else if !ci && cj {
                lemma_cycle_mixed_distinct(p1, p2, cyc, j, i);
            }
        }
    }
    assert forall|v: int| 0 <= v < n implies #[trigger] has_key(a, v) by {
        assert(has_key(p1, v));
        let q = choose|q: int| 0 <= q < n && (#[trigger] p1[q].key_spec()) == v;
        if cyc.contains(q as usize) {
            let k = choose|k: int| 0 <= k < cyc.len() && cyc[k] == q as usize;
            assert(cyc[k] as int == q);
            let t = if k > 0 {
                cyc[k - 1] as int
            } else {
                cyc[m] as int
            };
            if k > 0 {
                assert(cycle_linked(p1, p2, cyc, k - 1));
            }
            assert(p1[cyc[k] as int].key_spec() == p1[q].key_spec());
            assert(p2[t].key_spec() == p1[q].key_spec());
            assert(cyc.contains(cyc[if k > 0 {
                k - 1
            } else {
                m
            }]));
            assert(a[t].key_spec() == v);
        } else {
            assert(a[q].key_spec() == v);
        }
    }
    assert forall|i: int, j: int| 0 <= i < j < n implies b[i].key_spec() != b[j].key_spec() by {
        if b[i].key_spec() == b[j].key_spec() {
            let ci = cyc.contains(i as usize);
            let cj = cyc.contains(j as usize);
            if ci && !cj {
                lemma_cycle_mixed_distinct_b(p1, p2, cyc, i, j);
            } else if !ci && cj {
                lemma_cycle_mixed_distinct_b(p1, p2, cyc, j, i);
            }
        }
    }
    assert forall|v: int| 0 <= v < n implies #[trigger] has_key(b, v) by {
        assert(has_key(p2, v));
        let q = choose|q: int| 0 <= q < n && (#[trigger] p2[q].key_spec()) == v;
        if cyc.contains(q as usize) {
            let k = choose|k: int| 0 <= k < cyc.len() && cyc[k] == q as usize;
            assert(cyc[k] as int == q);
            let s = if k < m {
                cyc[k + 1] as int
            } else {
                cyc[0] as int
            };
            if k < m {
                assert(cycle_linked(p1, p2, cyc, k));
            }
            assert(p2[cyc[k] as int].key_spec() == p2[q].key_spec());
            assert(p1[s].key_spec() == p2[q].key_spec());
            assert(cyc.contains(cyc[if k < m {
                k + 1
            } else {
                0
            }]));
            assert(b[s].key_spec() == v);
        } else {
            assert(b[q].key_spec() == v);
        }
    }
}

/// On a closed cycle, a position on the cycle and one off it cannot hold the
/// same key in the first offspring.
proof fn lemma_cycle_mixed_distinct<K: PermKey>(
    p1: Seq<K>,
    p2: Seq<K>,
    cyc: Seq<usize>,
    i: int,
    j: int,
)
    requires
        p1.len() == p2.len(),
        p1.len() <= usize::MAX,
        key_perm(p1),
        key_perm(p2),
        cyc.len() >= 1,
        forall|k: int| 0 <= k < cyc.len() ==> (#[trigger] cyc[k]) < p1.len(),
        forall|k: int, l: int| 0 <= k < l < cyc.len() ==> cyc[k] != cyc[l],
        forall|k: int| 0 <= k < cyc.len() - 1 ==> #[trigger] cycle_linked(p1, p2, cyc, k),
        p1[cyc[0] as int].key_spec() == p2[cyc[cyc.len() - 1] as int].key_spec(),
        0 <= i < p1.len(),
        0 <= j < p1.len(),
        i != j,
        cyc.contains(i as usize),
        !cyc.contains(j as usize),
    ensures
        p2[i].key_spec() != p1[j].key_spec(),
{
    let m = cyc.len() - 1;
    if p2[i].key_spec() == p1[j].key_spec() {
        assert(cyc.contains(i as usize));
        let k = choose|k: int| 0 <= k < cyc.len() && cyc[k] == i as usize;
        assert(cyc[k] as int == i);
        let s = if k < m {
            cyc[k + 1] as int
        } else {
            cyc[0] as int
        };
        if k < m {
            assert(cycle_linked(p1, p2, cyc, k));
        }
        assert(p2[cyc[k] as int].key_spec() == p2[i].key_spec());
        assert(p1[s].key_spec() == p2[i].key_spec());
        assert(s == j);
        assert(cyc.contains(cyc[if k < m {
            k + 1
        } else {
            0
        }]));
    }
}

/// The same, for the second offspring.
proof fn lemma_cycle_mixed_distinct_b<K: PermKey>(
    p1: Seq<K>,
    p2: Seq<K>,
    cyc: Seq<usize>,
    i: int,
    j: int,
)
    requires
        p1.len() == p2.len(),
        p1.len() <= usize::MAX,
        key_perm(p1),
        key_perm(p2),
        cyc.len() >= 1,
        forall|k: int| 0 <= k < cyc.len() ==> (#[trigger] cyc[k]) < p1.len(),
        forall|k: int, l: int| 0 <= k < l < cyc.len() ==> cyc[k] != cyc[l],
        forall|k: int| 0 <= k < cyc.len() - 1 ==> #[trigger] cycle_linked(p1, p2, cyc, k),
        p1[cyc[0] as int].key_spec() == p2[cyc[cyc.len() - 1] as int].key_spec(),
        0 <= i < p1.len(),
        0 <= j < p1.len(),
        i != j,
        cyc.contains(i as usize),
        !cyc.contains(j as usize),
    ensures
        p1[i].key_spec() != p2[j].key_spec(),
{
    let m = cyc.len() - 1;
    if p1[i].key_spec() == p2[j].key_spec() {
        assert(cyc.contains(i as usize));
        let k = choose|k: int| 0 <= k < cyc.len() && cyc[k] == i as usize;
        assert(cyc[k] as int == i);
        let t = if k > 0 {
            cyc[k - 1] as int
        } else {
            cyc[m] as int
        };
        if k > 0 {
            assert(cycle_linked(p1, p2, cyc, k - 1));
        }
        assert(p1[cyc[k] as int].key_spec() == p1[i].key_spec());
        assert(p2[t].key_spec() == p1[i].key_spec());
        assert(t == j);
        assert(cyc.contains(cyc[if k > 0 {
            k - 1
        } else {
            m
        }]));
    }
}

/// The two offspring exchange exactly the positions of `cyc` and keep
/// their own parent's element everywhere else.
pub open spec fn swapped_on<K: PermKey>(
    p1: Seq<K>,
    p2: Seq<K>,
    o1: Seq<K>,
    o2: Seq<K>,
    cyc: Seq<usize>,
) -> bool {
    &&& o1.len() == p1.len()
    &&& o2.len() == p2.len()
    &&& forall|i: int|
        #![trigger o1[i]]
        0 <= i < p1.len() ==> if cyc.contains(i as usize) {
            o1[i] == p2[i] && o2[i] == p1[i]
        } else {
            o1[i] == p1[i] && o2[i] == p2[i]
        }
}

/// The listed positions form one chain under the two parents' keys: the
/// key `p2` shows at each listed position is the key `p1` shows at the
/// next one, the last link closes back on the first position, and no
/// position repeats.
pub open spec fn closed_cycle<K: PermKey>(p1: Seq<K>, p2: Seq<K>, cyc: Seq<usize>) -> bool {
    &&& forall|k: int| 0 <= k < cyc.len() ==> (#[trigger] cyc[k]) < p1.len()
    &&& forall|k: int, l: int| 0 <= k < l < cyc.len() ==> cyc[k] != cyc[l]
    &&& forall|k: int| 0 <= k < cyc.len() - 1 ==> #[trigger] cycle_linked(p1, p2, cyc, k)
    &&& cyc.len() > 0 ==> p1[cyc[0] as int].key_spec() == p2[cyc[cyc.len() - 1] as int].key_spec()
}

/// Cycle crossover: both offspring start as copies of their parents; the
/// permutation cycle through a random start position is exchanged between
/// them, so each offspring still visits every key exactly once. When the
/// parents disagree on the key of every position, the exchanged cycle is
/// never empty, so neither offspring is a plain copy of its own parent.
pub fn cycle_crossover_keyed<K: PermKey>(p1: &Vec<K>, p2: &Vec<K>, o1: &mut Vec<K>, o2: &mut Vec<K>)
    requires
        p1@.len() == p2@.len(),
        old(o1)@.len() == 0,
        old(o2)@.len() == 0,
    ensures
        final(o1)@.len() == p1@.len(),
        final(o2)@.len() == p2@.len(),
        forall|i: int|
            0 <= i < p1@.len() ==> (#[trigger] final(o1)@[i]) == p1@[i] || final(o1)@[i] == p2@[i],
        forall|i: int|
            0 <= i < p2@.len() ==> (#[trigger] final(o2)@[i]) == p1@[i] || final(o2)@[i] == p2@[i],
        key_perm(p1@) && key_perm(p2@) ==> key_perm(final(o1)@) && key_perm(final(o2)@),
        exists|cyc: Seq<usize>|
            #![trigger swapped_on(p1@, p2@, final(o1)@, final(o2)@, cyc)]
            swapped_on(p1@, p2@, final(o1)@, final(o2)@, cyc) && (key_perm(p1@) && key_perm(p2@)
                ==> closed_cycle(p1@, p2@, cyc)),
        (key_perm(p1@) && key_perm(p2@) && p1@.len() > 0 && (forall|i: int|
            0 <= i < p1@.len() ==> (#[trigger] p1@[i]).key_spec() != p2@[i].key_spec())) ==> (
        final(o1)@ != p1@ && final(o2)@ != p2@),
{
    let ghost perms = key_perm(p1@) && key_perm(p2@);
    let n = p1.len();
    let mut a = clone_vec_copy(p1);
    let mut b = clone_vec_copy(p2);
    if n == 0 {
        *o1 = a;
        *o2 = b;
        proof {
            assert(swapped_on(p1@, p2@, final(o1)@, final(o2)@, Seq::<usize>::empty()));
            assert(closed_cycle(p1@, p2@, Seq::<usize>::empty()));
        }
        return ;
    }
    let start = rand_below(n);
    if p1[start].key() == p2[start].key() {
        // the cycle closes immediately: nothing is exchanged
        *o1 = a;
        *o2 = b;
        proof {
            assert(swapped_on(p1@, p2@, final(o1)@, final(o2)@, Seq::<usize>::empty()));
            assert(closed_cycle(p1@, p2@, Seq::<usize>::empty()));
        }
        return ;
    }
    let mut cyc: Vec<usize> = Vec::new();
    cyc.push(start);
    let mut closed = false;
    let mut current = start;
    loop
        invariant_except_break
            !closed,
        invariant
            n == p1@.len(),
            n == p2@.len(),
            n >= 1,
            start < n,
            current < n,
            p1@[start as int].key_spec() != p2@[start as int].key_spec(),
            cyc@.len() >= 1,
            cyc@[0] == start,
            cyc@[cyc@.len() - 1] == current,
            forall|k: int| 0 <= k < cyc@.len() ==> (#[trigger] cyc@[k]) < n,
            perms == (key_perm(p1@) && key_perm(p2@)),
            perms ==> forall|k: int, l: int| 0 <= k < l < cyc@.len() ==> cyc@[k] != cyc@[l],
            forall|k: int| 0 <= k < cyc@.len() - 1 ==> #[trigger] cycle_linked(p1@, p2@, cyc@, k),
        ensures
            perms ==> closed,
            closed ==> p1@[cyc@[0] as int].key_spec() == p2@[cyc@[cyc@.len() - 1] as int].key_spec(),
        decreases n + 1 - cyc@.len(),
    {
        let target = p2[current].key();
        let found = find_key_pos(p1, target);
        match found {
            None => {
                proof {
                    if perms {
                        assert(p2@[current as int].key_spec() < n);
                        assert(has_key(p1@, target as int));
                        assert(false);
                    }
                }
                break ;
            },
            Some(q) => {
                if q == start {
                    closed = true;
                    break ;
                }
                proof {
                    if perms {
                        // q is not yet on the cycle: its predecessor would
                        // have to be the current end of the cycle
                        if cyc@.contains(q) {
                            let j = choose|j: int| 0 <= j < cyc@.len() && cyc@[j] == q;
                            assert(j != 0);
                            assert(cycle_linked(p1@, p2@, cyc@, j - 1));
                            assert(cyc@[j - 1] == current);
                            assert(false);
                        }
                        if cyc@.len() >= n {
                            lemma_distinct_bounded_len(cyc@.push(q), n as int);
                            assert(false);
                        }
                    }
                }
                if cyc.len() >= n {
                    // keys do not form permutations: give the parents back
                    break ;
                }
                let ghost old_cyc = cyc@;
                cyc.push(q);
                current = q;
                proof {
                    assert forall|k: int|
                        0 <= k < cyc@.len() - 1 implies #[trigger] cycle_linked(
                        p1@,
                        p2@,
                        cyc@,
                        k,
                    ) by {
                        if k < old_cyc.len() - 1 {
                            assert(cycle_linked(p1@, p2@, old_cyc, k));
                            assert(cyc@[k] == old_cyc[k] && cyc@[k + 1] == old_cyc[k + 1]);
                        } else {
                            assert(cyc@[k] == old_cyc[old_cyc.len() - 1]);
                            assert(cyc@[k + 1] == q);
                        }
                    }
                }
            },
        }
    }
    if closed {
        let mut k: usize = 0;
        while k < cyc.len()
            invariant
                n == p1@.len(),
                n == p2@.len(),
                a@.len() == n,
                b@.len() == n,
                k <= cyc@.len(),
                forall|t: int| 0 <= t < cyc@.len() ==> (#[trigger] cyc@[t]) < n,
                forall|i: int|
                    0 <= i < n ==> #[trigger] a@[i] == (if cyc@.subrange(0, k as int).contains(
                        i as usize,
                    ) {
                        p2@[i]
                    } else {
                        p1@[i]
                    }),
                forall|i: int|
                    0 <= i < n ==> #[trigger] b@[i] == (if cyc@.subrange(0, k as int).contains(
                        i as usize,
                    ) {
                        p1@[i]
                    } else {
                        p2@[i]
                    }),
            decreases cyc@.len() - k,
        {
            let ghost prev = cyc@.subrange(0, k as int);
            let i = cyc[k];
            a[i] = p2[i];
            b[i] = p1[i];
            proof {
                let s2 = cyc@.subrange(0, k as int + 1);
                assert(s2 =~= prev.push(cyc@[k as int]));
                assert(s2[k as int] == i);
                assert(s2.contains(i));
                assert forall|t: int|
                    #![trigger s2.contains(t as usize)]
                    #![trigger prev.contains(t as usize)]
                    0 <= t < n && t != i as int implies (s2.contains(t as usize)
                    == prev.contains(t as usize)) by {
                    if s2.contains(t as usize) {
                        let w = choose|w: int| 0 <= w < s2.len() && s2[w] == t as usize;
                        assert(w < prev.len());
                        assert(prev[w] == t as usize);
                    }
                    if prev.contains(t as usize) {
                        let w = choose|w: int| 0 <= w < prev.len() && prev[w] == t as usize;
                        assert(s2[w] == t as usize);
                    }
                }
            }
            k = k + 1;
        }
        proof {
            assert(cyc@.subrange(0, cyc@.len() as int) =~= cyc@);
            if perms {
                lemma_cycle_swap(p1@, p2@, cyc@, a@, b@);
            }
        }
    }
    *o1 = a;
    *o2 = b;
    proof {
        if closed {
            assert(swapped_on(p1@, p2@, final(o1)@, final(o2)@, cyc@));
            if perms {
                assert(closed_cycle(p1@, p2@, cyc@));
            }
            assert(cyc@.contains(start));
            if perms && (forall|i: int|
                0 <= i < p1@.len() ==> (#[trigger] p1@[i]).key_spec() != p2@[i].key_spec()) {
                assert(final(o1)@[start as int] == p2@[start as int]);
                assert(p1@[start as int].key_spec() != p2@[start as int].key_spec());
                assert(final(o1)@[start as int] != p1@[start as int]);
                assert(final(o2)@[start as int] != p2@[start as int]);
            }
        } else {
            assert(swapped_on(p1@, p2@, final(o1)@, final(o2)@, Seq::<usize>::empty()));
            assert(closed_cycle(p1@, p2@, Seq::<usize>::empty()));
        }
    }
}

/// Exchanging two positions preserves "every key exactly once".
proof fn lemma_swap_key_perm<K: PermKey>(p: Seq<K>, q: Seq<K>, a: int, b: int)
    requires
        0 <= a < p.len(),
        0 <= b < p.len(),
        key_perm(p),
        q == p.update(a, p[b]).update(b, p[a]),
    ensures
        key_perm(q),
{
    assert(q.len() == p.len());
    assert forall|v: int| 0 <= v < q.len() implies #[trigger] has_key(q, v) by {
        assert(has_key(p, v));
        let i = choose|i: int| 0 <= i < p.len() && (#[trigger] p[i].key_spec()) == v;
        if i == a {
            assert(q[b].key_spec() == v);
        } else if i == b {
            assert(q[a].key_spec() == v);
        } else {
            assert(q[i].key_spec() == v);
        }
    }
}

/// Exchanges the elements at two positions; every key still occurs exactly
/// once afterwards, and every element still comes from the old sequence.
pub fn swap_elements<K: PermKey>(perm: &mut Vec<K>, a: usize, b: usize)
    requires
        a < old(perm)@.len(),
        b < old(perm)@.len(),
    ensures
        final(perm)@ == old(perm)@.update(a as int, old(perm)@[b as int]).update(
            b as int,
            old(perm)@[a as int],
        ),
        key_perm(old(perm)@) ==> key_perm(final(perm)@),
{
    let x = perm[a];
    let y = perm[b];
    perm[a] = y;
    perm[b] = x;
    proof {
        if key_perm(old(perm)@) {
            lemma_swap_key_perm(old(perm)@, perm@, a as int, b as int);
        }
    }
}

/// Every element of `s` occurs somewhere in `base`.
pub open spec fn elements_from<K: PermKey>(s: Seq<K>, base: Seq<K>) -> bool {
    forall|i: int| 0 <= i < s.len() ==> base.contains(#[trigger] s[i])
}

/// Every sequence trivially draws its elements from itself.
pub proof fn lemma_elements_from_refl<K: PermKey>(s: Seq<K>)
    ensures
        elements_from(s, s),
{
    assert forall|i: int| 0 <= i < s.len() implies s.contains(#[trigger] s[i]) by {
        assert(0 <= i < s.len() && s[i] == s[i]);
    }
}

/// Relocates the element at one position to another, shifting everything in
/// between by one place: the "move" local search step.
pub fn move_element<K: PermKey>(perm: &mut Vec<K>, move_from: usize, move_to: usize)
    requires
        move_from < old(perm)@.len(),
        move_to < old(perm)@.len(),
    ensures
        final(perm)@.len() == old(perm)@.len(),
        key_perm(old(perm)@) ==> key_perm(final(perm)@),
        elements_from(final(perm)@, old(perm)@),
{
    proof {
        lemma_elements_from_refl(perm@);
    }
    if move_to >= move_from {
        let mut i = move_from;
        while i < move_to
            invariant
                move_from <= i <= move_to < perm@.len(),
                perm@.len() == old(perm)@.len(),
                key_perm(old(perm)@) ==> key_perm(perm@),
                elements_from(perm@, old(perm)@),
            decreases move_to - i,
        {
            let ghost pre = perm@;
            swap_elements(perm, i, i + 1);
            proof {
                lemma_elements_from_swap(pre, perm@, old(perm)@, i as int, i as int + 1);
            }
            i = i + 1;
        }
    } else {
        let mut i = move_from;
        while i > move_to
            invariant
                move_to <= i <= move_from < perm@.len(),
                perm@.len() == old(perm)@.len(),
                key_perm(old(perm)@) ==> key_perm(perm@),
                elements_from(perm@, old(perm)@),
            decreases i - move_to,
        {
            let ghost pre = perm@;
            swap_elements(perm, i, i - 1);
            proof {
                lemma_elements_from_swap(pre, perm@, old(perm)@, i as int, i as int - 1);
            }
            i = i - 1;
        }
    }
}

/// Reverses a circular sub-range: the "reverse" local search step.
pub fn reverse_range<K: PermKey>(perm: &mut Vec<K>, from: usize, to_raw: usize)
    requires
        from < old(perm)@.len(),
        to_raw < old(perm)@.len(),
        old(perm)@.len() <= usize::MAX / 2,
    ensures
        final(perm)@.len() == old(perm)@.len(),
        key_perm(old(perm)@) ==> key_perm(final(perm)@),
        elements_from(final(perm)@, old(perm)@),
{
    proof {
        lemma_elements_from_refl(perm@);
    }
    let n = perm.len();
    let to = if to_raw < from {
        to_raw + n
    } else {
        to_raw
    };
    let range_len = to - from;
    let half = range_len / 2;
    let mut offset: usize = 0;
    while offset < half
        invariant
            n == perm@.len(),
            n == old(perm)@.len(),
            from < n,
            to < 2 * n,
            from <= to,
            half <= (to - from) / 2,
            offset <= half,
            key_perm(old(perm)@) ==> key_perm(perm@),
            elements_from(perm@, old(perm)@),
        decreases half - offset,
    {
        let pos1 = (from + offset) % n;
        let pos2 = (to - offset) % n;
        let ghost pre = perm@;
        swap_elements(perm, pos1, pos2);
        proof {
            lemma_elements_from_swap(pre, perm@, old(perm)@, pos1 as int, pos2 as int);
        }
        offset = offset + 1;
    }
}

/// A swap of two positions keeps every element an element of the base.
pub proof fn lemma_elements_from_swap<K: PermKey>(
    pre: Seq<K>,
    post: Seq<K>,
    base: Seq<K>,
    a: int,
    b: int,
)
    requires
        elements_from(pre, base),
        0 <= a < pre.len(),
        0 <= b < pre.len(),
        post == pre.update(a, pre[b]).update(b, pre[a]),
    ensures
        elements_from(post, base),
{
    assert forall|i: int| 0 <= i < post.len() implies base.contains(#[trigger] post[i]) by {
        let src = if i == b {
            a
        } else if i == a {
            b
        } else {
            i
        };
        assert(post[i] == pre[src]);
        assert(base.contains(pre[src]));
    }
}

/// Some position of the slice `[from, to)` carries the given key.
pub open spec fn slice_has_key<K: PermKey>(pa: Seq<K>, from: int, to: int, v: int) -> bool {
    exists|i: int| from <= i < to && (#[trigger] pa[i].key_spec()) as int == v
}

/// The elements of `pb`, in order, whose keys the slice `[from, to)` of
/// `pa` does not use.
pub open spec fn unused_of<K: PermKey>(pa: Seq<K>, from: int, to: int, pb: Seq<K>) -> Seq<K> {
    pb.filter(|e: K| !slice_has_key(pa, from, to, e.key_spec() as int))
}

/// The exact result of one order-crossover fill: the slice `[from, to)` is
/// copied from the first parent, and the positions outside it hold, in
/// order, the second parent's elements whose keys the slice does not use.
pub open spec fn order_fill_shape<K: PermKey>(
    pa: Seq<K>,
    pb: Seq<K>,
    o: Seq<K>,
    from: int,
    to: int,
) -> bool {
    &&& o.len() == pa.len()
    &&& forall|t: int| from <= t < to ==> #[trigger] o[t] == pa[t]
    &&& o.subrange(0, from) + o.subrange(to, o.len() as int) == unused_of(pa, from, to, pb)
}

proof fn lemma_unused_push<K: PermKey>(pa: Seq<K>, from: int, to: int, s: Seq<K>, x: K)
    ensures
        unused_of(pa, from, to, s.push(x)) == (if !slice_has_key(
            pa,
            from,
            to,
            x.key_spec() as int,
        ) {
            unused_of(pa, from, to, s).push(x)
        } else {
            unused_of(pa, from, to, s)
        }),
{
    reveal_with_fuel(Seq::filter, 2);
    assert(s.push(x).drop_last() =~= s);
    assert(s.push(x).last() == x);
}

/// Order crossover: each offspring copies one random contiguous slice from
/// one parent verbatim and fills the remaining positions, in order, with
/// the other parent's elements whose keys the slice does not use. Each
/// offspring still visits every key exactly once.
pub fn order_crossover_keyed<K: PermKey>(p1: &Vec<K>, p2: &Vec<K>, o1: &mut Vec<K>, o2: &mut Vec<K>)
    requires
        p1@.len() == p2@.len(),
        old(o1)@.len() == 0,
        old(o2)@.len() == 0,
    ensures
        final(o1)@.len() == p1@.len(),
        final(o2)@.len() == p2@.len(),
        key_perm(p1@) && key_perm(p2@) ==> key_perm(final(o1)@) && key_perm(final(o2)@),
        key_perm(p1@) && key_perm(p2@) ==> exists|from: int, to: int|
            #![trigger order_fill_shape(p1@, p2@, final(o1)@, from, to)]
            {
                &&& 0 <= from <= to <= p1@.len()
                &&& order_fill_shape(p1@, p2@, final(o1)@, from, to)
                &&& order_fill_shape(p2@, p1@, final(o2)@, from, to)
            },
        forall|t: int|
            #![trigger final(o1)@[t]]
            0 <= t < p1@.len() ==> final(o1)@[t] == p1@[t] || exists|j: int|
                0 <= j < p2@.len() && final(o1)@[t] == #[trigger] p2@[j],
        forall|t: int|
            #![trigger final(o2)@[t]]
            0 <= t < p2@.len() ==> final(o2)@[t] == p2@[t] || exists|j: int|
                0 <= j < p1@.len() && final(o2)@[t] == #[trigger] p1@[j],
{
    let n = p1.len();
    let (from, to) = if n == 0 {
        (0, 0)
    } else {
        let f = rand_below(n);
        let t = f + rand_below(n - f);
        (f, t)
    };
    let a = order_fill(p1, p2, from, to);
    let b = order_fill(p2, p1, from, to);
    *o1 = a;
    *o2 = b;
    proof {
        if key_perm(p1@) && key_perm(p2@) {
            assert(order_fill_shape(p1@, p2@, final(o1)@, from as int, to as int));
            assert(order_fill_shape(p2@, p1@, final(o2)@, from as int, to as int));
        }
    }
}

/// Removing a finite subset takes away exactly its size.
proof fn lemma_len_split<A>(s: Set<A>, t: Set<A>)
    requires
        s.finite(),
        t.finite(),
        t.subset_of(s),
    ensures
        s.difference(t).finite(),
        s.difference(t).len() == s.len() - t.len(),
    decreases t.len(),
{
    if t.len() == 0 {
        assert(t =~= Set::<A>::empty());
        assert(s.difference(t) =~= s);
    } else {
        let a = t.choose();
        assert(t.contains(a));
        assert(s.difference(t) =~= s.remove(a).difference(t.remove(a)));
        assert(t.remove(a).subset_of(s.remove(a)));
        lemma_len_split(s.remove(a), t.remove(a));
    }
}

/// Order crossover, one offspring: the slice `[from, to)` is copied from the
/// first parent; the remaining positions are filled, in order, with the
/// second parent's elements whose keys the slice does not already use.
#[verifier::loop_isolation(false)]
fn order_fill<K: PermKey>(pa: &Vec<K>, pb: &Vec<K>, from: usize, to: usize) -> (o: Vec<K>)
    requires
        pa@.len() == pb@.len(),
        from <= to <= pa@.len(),
    ensures
        o@.len() == pa@.len(),
        forall|t: int| from <= t < to ==> #[trigger] o@[t] == pa@[t],
        forall|t: int|
            #![trigger o@[t]]
            0 <= t < pa@.len() ==> o@[t] == pa@[t] || exists|j: int|
                0 <= j < pb@.len() && o@[t] == #[trigger] pb@[j],
        key_perm(pa@) && key_perm(pb@) ==> key_perm(o@),
        key_perm(pa@) && key_perm(pb@) ==> order_fill_shape(pa@, pb@, o@, from as int, to as int),
{
    let ghost pk = key_perm(pa@) && key_perm(pb@);
    let n = pa.len();
    let ghost kfa = |i: int| pa@[i].key_spec() as int;
    let ghost kfb = |j: int| pb@[j].key_spec() as int;
    let ghost ks = vstd::set_lib::set_int_range(from as int, to as int).map(kfa);
    let mut used: Vec<bool> = Vec::new();
    let mut z: usize = 0;
    while z < n
        invariant
            z <= n,
            used@.len() == z,
            forall|v: int| 0 <= v < z ==> !(#[trigger] used@[v]),
        decreases n - z,
    {
        used.push(false);
        z = z + 1;
    }
    proof {
        assert forall|v: int|
            0 <= v < n implies used@[v] == vstd::set_lib::set_int_range(
            from as int,
            from as int,
        ).map(kfa).contains(v) by {
            if vstd::set_lib::set_int_range(from as int, from as int).map(kfa).contains(v) {
                let w = choose|w: int|
                    #![trigger kfa(w)]
                    vstd::set_lib::set_int_range(from as int, from as int).contains(w) && v == kfa(
                        w,
                    );
            }
        }
    }
    let mut i: usize = from;
    while i < to
        invariant
            from <= i <= to,
            to <= n,
            n == pa@.len(),
            n == pb@.len(),
            used@.len() == n,
            pk == (key_perm(pa@) && key_perm(pb@)),
            pk ==> forall|v: int|
                0 <= v < n ==> used@[v] == vstd::set_lib::set_int_range(from as int, i as int).map(
                    kfa,
                ).contains(v),
        decreases to - i,
    {
        let ghost pre = vstd::set_lib::set_int_range(from as int, i as int).map(kfa);
        let ghost used_old = used@;
        let k = pa[i].key();
        if k < n {
            used[k] = true;
        }
        proof {
            if pk {
                assert(pa@[i as int].key_spec() < n);
                assert(used@ == used_old.update(k as int, true));
                let cur = vstd::set_lib::set_int_range(from as int, i as int + 1).map(kfa);
                assert forall|v: int| 0 <= v < n implies used@[v] == cur.contains(v) by {
                    if cur.contains(v) {
                        let w = choose|w: int|
                            #![trigger kfa(w)]
                            vstd::set_lib::set_int_range(from as int, i as int + 1).contains(w)
                                && v == kfa(w);
                        if w < i {
                            assert(vstd::set_lib::set_int_range(from as int, i as int).contains(w)
                                && v == kfa(w));
                            assert(pre.contains(v));
                            assert(used_old[v]);
                            assert(used@[v]);
                        } else {
                            assert(v == k as int);
                            assert(used@[v]);
                        }
                    }
                    if used@[v] {
                        if v == k as int {
                            assert(vstd::set_lib::set_int_range(from as int, i as int + 1).contains(
                                i as int,
                            ) && v == kfa(i as int));
                            assert(cur.contains(v));
                        } else {
                            assert(used_old[v]);
                            assert(pre.contains(v));
                            let w = choose|w: int|
                                #![trigger kfa(w)]
                                vstd::set_lib::set_int_range(from as int, i as int).contains(w)
                                    && v == kfa(w);
                            assert(vstd::set_lib::set_int_range(from as int, i as int + 1).contains(
                                w,
                            ) && v == kfa(w));
                            assert(cur.contains(v));
                        }
                    }
                }
            }
        }
        i = i + 1;
    }
    let ghost sj = Set::new(|j: int| 0 <= j < n && !ks.contains(pb@[j].key_spec() as int));
    proof {
        assert(sj.intersect(vstd::set_lib::set_int_range(0, 0)) =~= Set::<int>::empty());
        if pk {
            assert forall|v: int| #![trigger ks.contains(v)] true implies ks.contains(v)
                == slice_has_key(pa@, from as int, to as int, v) by {
                if ks.contains(v) {
                    let w = choose|w: int|
                        #![trigger kfa(w)]
                        vstd::set_lib::set_int_range(from as int, to as int).contains(w) && v
                            == kfa(w);
                    assert(from <= w < to && (pa@[w].key_spec()) as int == v);
                }
                if slice_has_key(pa@, from as int, to as int, v) {
                    let w = choose|w: int|
                        from <= w < to && ((#[trigger] pa@[w].key_spec()) as int) == v;
                    assert(vstd::set_lib::set_int_range(from as int, to as int).contains(w) && v
                        == kfa(w));
                }
            }
        }
        assert(pb@.subrange(0, 0) =~= Seq::<K>::empty());
    }
    let mut rest: Vec<K> = Vec::new();
    let ghost mut srcs: Seq<int> = Seq::empty();
    let mut j: usize = 0;
    while j < n
        invariant
            j <= n,
            n == pa@.len(),
            n == pb@.len(),
            used@.len() == n,
            pk == (key_perm(pa@) && key_perm(pb@)),
            pk ==> forall|v: int|
                0 <= v < n ==> used@[v] == ks.contains(v),
            rest@.len() == srcs.len(),
            forall|r: int| 0 <= r < srcs.len() ==> 0 <= #[trigger] srcs[r] < j,
            forall|r1: int, r2: int| 0 <= r1 < r2 < srcs.len() ==> srcs[r1] < srcs[r2],
            forall|r: int| 0 <= r < srcs.len() ==> #[trigger] rest@[r] == pb@[srcs[r]],
            pk ==> forall|r: int|
                0 <= r < srcs.len() ==> !ks.contains(#[trigger] rest@[r].key_spec() as int),
            pk ==> rest@.len() == sj.intersect(
                vstd::set_lib::set_int_range(0, j as int),
            ).len(),
            pk ==> rest@ == unused_of(pa@, from as int, to as int, pb@.subrange(0, j as int)),
        decreases n - j,
    {
        let ghost pre_set = sj.intersect(vstd::set_lib::set_int_range(0, j as int));
        let ghost cur_set = sj.intersect(vstd::set_lib::set_int_range(0, j as int + 1));
        let ghost pre_sub = pb@.subrange(0, j as int);
        let k = pb[j].key();
        if k < n && !used[k] {
            rest.push(pb[j]);
            proof {
                srcs = srcs.push(j as int);
                if pk {
                    assert(k == pb@[j as int].key_spec());
                    assert(!used@[k as int]);
                    assert(!ks.contains(k as int));
                    assert(pb@.subrange(0, j as int + 1) =~= pre_sub.push(pb@[j as int]));
                    lemma_unused_push(
                        pa@,
                        from as int,
                        to as int,
                        pre_sub,
                        pb@[j as int],
                    );
                    assert(sj.contains(j as int));
                    assert(cur_set =~= pre_set.insert(j as int));
                    vstd::set_lib::lemma_int_range(0, j as int);
                    assert(pre_set.subset_of(vstd::set_lib::set_int_range(0, j as int)));
                    vstd::set_lib::lemma_set_subset_finite(
                        vstd::set_lib::set_int_range(0, j as int),
                        pre_set,
                    );
                    assert(!pre_set.contains(j as int));
                }
            }
        } else {
            proof {
                if pk {
                    assert(pb@[j as int].key_spec() < n);
                    assert(used@[k as int] ==> ks.contains(k as int));
                    assert(pb@.subrange(0, j as int + 1) =~= pre_sub.push(pb@[j as int]));
                    lemma_unused_push(
                        pa@,
                        from as int,
                        to as int,
                        pre_sub,
                        pb@[j as int],
                    );
                    assert(!sj.contains(j as int));
                    assert(cur_set =~= pre_set);
                }
            }
        }
        j = j + 1;
    }
    proof {
        if pk {
            assert(pb@.subrange(0, n as int) =~= pb@);
            assert(rest@ == unused_of(pa@, from as int, to as int, pb@));
        }
    }
    let fill_count = n - (to - from);
    if rest.len() != fill_count {
        proof {
            if pk {
                // the counts always agree when the keys form permutations
                vstd::set_lib::lemma_int_range(from as int, to as int);
                assert(vstd::relations::injective_on(
                    kfa,
                    vstd::set_lib::set_int_range(from as int, to as int),
                )) by {
                    assert forall|x1: int, x2: int|
                        vstd::set_lib::set_int_range(from as int, to as int).contains(x1)
                            && vstd::set_lib::set_int_range(from as int, to as int).contains(x2)
                            && #[trigger] kfa(x1) == #[trigger] kfa(x2) implies x1 == x2 by {
                        if x1 < x2 {
                            assert(pa@[x1].key_spec() != pa@[x2].key_spec());
                        } else if x2 < x1 {
                            assert(pa@[x2].key_spec() != pa@[x1].key_spec());
                        }
                    }
                }
                vstd::set_lib::lemma_map_size(
                    vstd::set_lib::set_int_range(from as int, to as int),
                    ks,
                    kfa,
                );
                vstd::set_lib::lemma_int_range(0, n as int);
                let range_n = vstd::set_lib::set_int_range(0, n as int);
                assert(ks.subset_of(range_n));
                let sv = range_n.difference(ks);
                lemma_len_split(range_n, ks);
                assert(vstd::relations::injective_on(kfb, sj)) by {
                    assert forall|x1: int, x2: int|
                        sj.contains(x1) && sj.contains(x2) && #[trigger] kfb(x1) == #[trigger] kfb(
                            x2,
                        ) implies x1 == x2 by {
                        if x1 < x2 {
                            assert(pb@[x1].key_spec() != pb@[x2].key_spec());
                        } else if x2 < x1 {
                            assert(pb@[x2].key_spec() != pb@[x1].key_spec());
                        }
                    }
                }
                assert(sj.map(kfb) =~= sv) by {
                    assert forall|v: int| sv.contains(v) implies sj.map(kfb).contains(v) by {
                        assert(has_key(pb@, v));
                        let w = choose|w: int|
                            0 <= w < pb@.len() && (#[trigger] pb@[w].key_spec()) == v;
                        assert(sj.contains(w) && v == kfb(w));
                    }
                }
                vstd::set_lib::lemma_set_subset_finite(range_n, sj);
                vstd::set_lib::lemma_map_size(sj, sv, kfb);
                assert(sj.intersect(vstd::set_lib::set_int_range(0, n as int)) =~= sj);
                assert(false);
            }
        }
        return clone_vec_copy(pa);
    }
    let mut o: Vec<K> = Vec::new();
    let mut t: usize = 0;
    while t < n
        invariant
            t <= n,
            n == pa@.len(),
            n == pb@.len(),
            from <= to <= n,
            rest@.len() == n - (to - from),
            o@.len() == t,
            forall|u: int| 0 <= u < t && u < from ==> #[trigger] o@[u] == rest@[u],
            forall|u: int| from <= u < to && u < t ==> #[trigger] o@[u] == pa@[u],
            forall|u: int| to <= u < t ==> #[trigger] o@[u] == rest@[u - (to - from)],
        decreases n - t,
    {
        if t >= from && t < to {
            o.push(pa[t]);
        } else if t < from {
            o.push(rest[t]);
        } else {
            o.push(rest[t - (to - from)]);
        }
        t = t + 1;
    }
    proof {
        assert forall|u: int|
            #![trigger o@[u]]
            0 <= u < pa@.len() && !(from <= u < to) implies exists|jx: int|
            0 <= jx < pb@.len() && o@[u] == #[trigger] pb@[jx] by {
            let r = if u < from {
                u
            } else {
                u - (to - from)
            };
            assert(o@[u] == rest@[r]);
            assert(rest@[r] == pb@[srcs[r]]);
            assert(0 <= srcs[r] < pb@.len());
            assert(o@[u] == pb@[srcs[r]]);
        }
        if pk {
            lemma_order_perm(pa@, pb@, o@, rest@, srcs, ks, from as int, to as int);
            assert(o@.subrange(0, from as int) + o@.subrange(to as int, o@.len() as int)
                =~= rest@);
            assert(order_fill_shape(pa@, pb@, o@, from as int, to as int));
        }
    }
    o
}

/// The filled offspring of an order crossover visits every key exactly once.
proof fn lemma_order_perm<K: PermKey>(
    pa: Seq<K>,
    pb: Seq<K>,
    o: Seq<K>,
    rest: Seq<K>,
    srcs: Seq<int>,
    ks: Set<int>,
    from: int,
    to: int,
)
    requires
        key_perm(pa),
        key_perm(pb),
        pa.len() == pb.len(),
        pa.len() <= usize::MAX,
        0 <= from <= to <= pa.len(),
        ks == vstd::set_lib::set_int_range(from, to).map(|i: int| pa[i].key_spec() as int),
        rest.len() == srcs.len(),
        rest.len() == pa.len() - (to - from),
        forall|r: int| 0 <= r < srcs.len() ==> 0 <= #[trigger] srcs[r] < pb.len(),
        forall|r1: int, r2: int| 0 <= r1 < r2 < srcs.len() ==> srcs[r1] < srcs[r2],
        forall|r: int| 0 <= r < srcs.len() ==> #[trigger] rest[r] == pb[srcs[r]],
        forall|r: int| 0 <= r < srcs.len() ==> !ks.contains(#[trigger] rest[r].key_spec() as int),
        o.len() == pa.len(),
        forall|u: int| 0 <= u < from ==> #[trigger] o[u] == rest[u],
        forall|u: int| from <= u < to ==> #[trigger] o[u] == pa[u],
        forall|u: int| to <= u < o.len() ==> #[trigger] o[u] == rest[u - (to - from)],
    ensures
        key_perm(o),
{
    let n = pa.len() as int;
    let kfa = |i: int| pa[i].key_spec() as int;
    vstd::set_lib::lemma_int_range(from, to);
    assert(vstd::relations::injective_on(kfa, vstd::set_lib::set_int_range(from, to))) by {
        assert forall|x1: int, x2: int|
            vstd::set_lib::set_int_range(from, to).contains(x1) && vstd::set_lib::set_int_range(
                from,
                to,
            ).contains(x2) && #[trigger] kfa(x1) == #[trigger] kfa(x2) implies x1 == x2 by {
            if x1 < x2 {
                assert(pa[x1].key_spec() != pa[x2].key_spec());
            } else if x2 < x1 {
                assert(pa[x2].key_spec() != pa[x1].key_spec());
            }
        }
    }
    vstd::set_lib::lemma_map_size(vstd::set_lib::set_int_range(from, to), ks, kfa);
    vstd::set_lib::lemma_int_range(0, n);
    let range_n = vstd::set_lib::set_int_range(0, n);
    assert(ks.subset_of(range_n));
    let sv = range_n.difference(ks);
    lemma_len_split(range_n, ks);
    // the keys taken from the second parent are exactly the keys the slice
    // does not use
    let krseq = Seq::new(rest.len(), |r: int| rest[r].key_spec() as int);
    assert(krseq.no_duplicates()) by {
        assert forall|r1: int, r2: int|
            0 <= r1 < r2 < krseq.len() implies krseq[r1] != krseq[r2] by {
            assert(rest[r1] == pb[srcs[r1]] && rest[r2] == pb[srcs[r2]]);
            assert(srcs[r1] < srcs[r2]);
        }
    }
    krseq.unique_seq_to_set();
    assert(krseq.to_set().subset_of(sv)) by {
        assert forall|v: int| krseq.to_set().contains(v) implies sv.contains(v) by {
            assert(krseq.contains(v));
            let r = choose|r: int| 0 <= r < krseq.len() && krseq[r] == v;
            assert(rest[r] == pb[srcs[r]]);
            assert(0 <= v < n);
        }
    }
    vstd::set_lib::lemma_set_subset_finite(range_n, sv);
    vstd::set_lib::lemma_subset_equality(krseq.to_set(), sv);
    // bounds
    assert forall|u: int| 0 <= u < n implies (#[trigger] o[u].key_spec()) < n by {
        if from <= u < to {
        } else {
            let r = if u < from {
                u
            } else {
                u - (to - from)
            };
            assert(o[u] == rest[r] && rest[r] == pb[srcs[r]]);
        }
    }
    // no key twice
    assert forall|u1: int, u2: int|
        0 <= u1 < u2 < n implies o[u1].key_spec() != o[u2].key_spec() by {
        let in1 = from <= u1 < to;
        let in2 = from <= u2 < to;
        if in1 && in2 {
        } else if in1 && !in2 {
            let r2 = if u2 < from {
                u2
            } else {
                u2 - (to - from)
            };
            assert(o[u2] == rest[r2]);
            assert(!ks.contains(rest[r2].key_spec() as int));
            assert(vstd::set_lib::set_int_range(from, to).contains(u1) && (pa[u1].key_spec() as int)
                == kfa(u1));
            assert(ks.contains(o[u1].key_spec() as int));
        } else if !in1 && in2 {
            let r1 = if u1 < from {
                u1
            } else {
                u1 - (to - from)
            };
            assert(o[u1] == rest[r1]);
            assert(!ks.contains(rest[r1].key_spec() as int));
            assert(vstd::set_lib::set_int_range(from, to).contains(u2) && (pa[u2].key_spec() as int)
                == kfa(u2));
            assert(ks.contains(o[u2].key_spec() as int));
        } else {
            let r1 = if u1 < from {
                u1
            } else {
                u1 - (to - from)
            };
            let r2 = if u2 < from {
                u2
            } else {
                u2 - (to - from)
            };
            assert(o[u1] == rest[r1] && o[u2] == rest[r2]);
            assert(r1 < r2);
            assert(rest[r1] == pb[srcs[r1]] && rest[r2] == pb[srcs[r2]]);
            assert(srcs[r1] < srcs[r2]);
        }
    }
    // every key occurs
    assert forall|v: int| 0 <= v < n implies #[trigger] has_key(o, v) by {
        if ks.contains(v) {
            let w = choose|w: int|
                #![trigger kfa(w)]
                vstd::set_lib::set_int_range(from, to).contains(w) && v == kfa(w);
            assert(o[w] == pa[w]);
            assert(o[w].key_spec() == v);
        } else {
            assert(sv.contains(v));
            assert(krseq.to_set().contains(v));
            assert(krseq.contains(v));
            let r = choose|r: int| 0 <= r < krseq.len() && krseq[r] == v;
            let u = if r < from {
                r
            } else {
                r + (to - from)
            };
            assert(o[u] == rest[r]);
            assert(o[u].key_spec() == v);
        }
    }
}

} // verus!
