//! An edit-distance metric, and a BK-tree that files keys by their distance
//! to one another.
use vstd::prelude::*;
use vstd::string::StrSliceExecFns;

use crate::text::{lower_of, lowercase};

verus! {

/// Edit distance by dynamic programming over the prefixes `a` and `b`:
/// equal last characters cost nothing, else the cheapest of deleting,
/// inserting or substituting, plus one.
pub open spec fn lev(a: Seq<char>, b: Seq<char>) -> nat
    decreases a.len() + b.len(),
{
    if a.len() == 0 {
        b.len()
    } else if b.len() == 0 {
        a.len()
    } else if a.last() == b.last() {
        lev(a.drop_last(), b.drop_last())
    } else {
        let del = lev(a.drop_last(), b);
        let ins = lev(a, b.drop_last());
        let sub = lev(a.drop_last(), b.drop_last());
        1 + if del <= ins && del <= sub {
            del
        } else if ins <= sub {
            ins
        } else {
            sub
        }
    }
}

/// The case-insensitive distance: the length of the other string where one
/// is empty, else the edit distance of the lower-case forms.
pub open spec fn levenshtein_spec(a: Seq<char>, b: Seq<char>) -> nat {
    if a.len() == 0 {
        b.len()
    } else if b.len() == 0 {
        a.len()
    } else {
        lev(lower_of(a), lower_of(b))
    }
}

pub proof fn lemma_lev_bound(a: Seq<char>, b: Seq<char>)
    ensures
        lev(a, b) <= if a.len() >= b.len() {
            a.len()
        } else {
            b.len()
        },
    decreases a.len() + b.len(),
{
    if a.len() > 0 && b.len() > 0 {
        lemma_lev_bound(a.drop_last(), b.drop_last());
        if a.last() != b.last() {
            lemma_lev_bound(a.drop_last(), b);
            lemma_lev_bound(a, b.drop_last());
        }
    }
}

/// The characters of `s`, one by one.
fn chars_of(s: &str) -> (r: Vec<char>)
    ensures
        r@ == s@,
{
    let n = s.unicode_len();
    let mut r: Vec<char> = Vec::new();
    let mut k: usize = 0;
    while k < n
        invariant
            k <= n,
            n == s@.len(),
            r@ == s@.subrange(0, k as int),
        decreases n - k,
    {
        r.push(s.get_char(k));
        proof {
            assert(s@.subrange(0, k + 1) =~= s@.subrange(0, k as int).push(s@[k as int]));
        }
        k = k + 1;
    }
    proof {
        assert(s@.subrange(0, n as int) =~= s@);
    }
    r
}

/// The edit distance of `a` and `b` (Wagner–Fischer, one row at a time).
pub fn edit_distance(a: &Vec<char>, b: &Vec<char>) -> (r: usize)
    ensures
        r == lev(a@, b@),
{
    let n = a.len();
    let m = b.len();
    let mut prev: Vec<usize> = Vec::new();
    proof {
        assert(a@.subrange(0, 0).len() == 0);
    }
    prev.push(0);
    let mut i: usize = 0;
    while i < n
        invariant
            i <= n,
            n == a@.len(),
            prev@.len() == i + 1,
            forall|x: int| 0 <= x <= i ==> prev@[x] == lev(a@.subrange(0, x), b@.subrange(0, 0)),
        decreases n - i,
    {
        proof {
            assert(b@.subrange(0, 0).len() == 0);
            assert(a@.subrange(0, i + 1).len() == i + 1);
        }
        prev.push(i + 1);
        i = i + 1;
    }
    let mut j: usize = 0;
    while j < m
        invariant
            j <= m,
            n == a@.len(),
            m == b@.len(),
            prev@.len() == n + 1,
            forall|x: int| 0 <= x <= n ==> prev@[x] == lev(a@.subrange(0, x), b@.subrange(0, j as int)),
        decreases m - j,
    {
        let ghost bj = b@.subrange(0, j + 1);
        let mut cur: Vec<usize> = Vec::new();
        proof {
            assert(a@.subrange(0, 0).len() == 0);
        }
        cur.push(j + 1);
        let mut x: usize = 0;
        while x < n
            invariant
                x <= n,
                j < m,
                n == a@.len(),
                m == b@.len(),
                bj == b@.subrange(0, j + 1),
                prev@.len() == n + 1,
                forall|y: int| 0 <= y <= n ==> prev@[y] == lev(a@.subrange(0, y), b@.subrange(0, j as int)),
                cur@.len() == x + 1,
                forall|y: int| 0 <= y <= x ==> cur@[y] == lev(a@.subrange(0, y), bj),
            decreases n - x,
        {
            let ghost ax = a@.subrange(0, x + 1);
            proof {
                assert(ax.drop_last() =~= a@.subrange(0, x as int));
                assert(bj.drop_last() =~= b@.subrange(0, j as int));
                assert(ax.last() == a@[x as int]);
                assert(bj.last() == b@[j as int]);
                lemma_lev_bound(a@.subrange(0, x as int), b@.subrange(0, j as int));
                lemma_lev_bound(a@.subrange(0, x as int), bj);
                lemma_lev_bound(ax, b@.subrange(0, j as int));
            }
            let v = if a[x] == b[j] {
                prev[x]
            } else {
                let del = cur[x];
                let ins = prev[x + 1];
                let sub = prev[x];
                let low = if del <= ins && del <= sub {
                    del
                } else if ins <= sub {
                    ins
                } else {
                    sub
                };
                low + 1
            };
            cur.push(v);
            x = x + 1;
        }
        prev = cur;
        j = j + 1;
    }
    proof {
        assert(a@.subrange(0, n as int) =~= a@);
        assert(b@.subrange(0, m as int) =~= b@);
    }
    prev[n]
}

/// The case-insensitive edit distance of two strings.
pub fn levenshtein(a: &str, b: &str) -> (r: u64)
    ensures
        r == levenshtein_spec(a@, b@),
{
    let ca = chars_of(a);
    let cb = chars_of(b);
    if ca.len() == 0 {
        return cb.len() as u64;
    }
    if cb.len() == 0 {
        return ca.len() as u64;
    }
    let la = lowercase(a);
    let lb = lowercase(b);
    let d = edit_distance(&chars_of(la.as_str()), &chars_of(lb.as_str()));
    d as u64
}


/// A distance function on keys.
pub trait Metric<K> {
    spec fn spec_distance(&self, a: K, b: K) -> nat;

    fn distance(&self, a: &K, b: &K) -> (r: u64)
        ensures
            r as nat == self.spec_distance(*a, *b),
    ;
}

/// The case-insensitive edit distance of strings.
pub struct Levenshtein;

impl Metric<String> for Levenshtein {
    open spec fn spec_distance(&self, a: String, b: String) -> nat {
        levenshtein_spec(a@, b@)
    }

    fn distance(&self, a: &String, b: &String) -> (r: u64) {
        levenshtein(a.as_str(), b.as_str())
    }
}

/// A key of the tree and its children, each filed under its distance from
/// the key; a child is the position of its node in the tree.
pub struct BKNode<K> {
    pub key: K,
    pub children: Vec<(u64, usize)>,
}

impl<K> BKNode<K> {
    /// A node without children.
    pub fn new(key: K) -> (r: BKNode<K>)
        ensures
            r.key == key,
            r.children@.len() == 0,
    {
        BKNode { key, children: Vec::new() }
    }

    /// Files the node at position `child` under `distance`.
    pub fn add_child(&mut self, distance: u64, child: usize)
        ensures
            final(self).key == old(self).key,
            final(self).children@ == old(self).children@.push((distance, child)),
    {
        self.children.push((distance, child));
    }
}

/// A BK-tree: the root is the first node; each node's position is above its
/// parent's. `path` records, for each node, the nodes above it from the root
/// down with the distance under which the way to it is filed at each.
pub struct BKTree<K, M> {
    pub nodes: Vec<BKNode<K>>,
    pub metric: M,
    pub path: Ghost<Seq<Seq<(int, u64)>>>,
}

impl<K, M: Metric<K>> BKTree<K, M> {
    pub open spec fn dist(&self, a: K, b: K) -> nat {
        self.metric.spec_distance(a, b)
    }

    /// The tree's shape: children lie after their parent and sit under
    /// distinct distances; each node's distance to every node above it is
    /// the distance of the branch taken there; each node but the root is
    /// filed with its parent.
    pub open spec fn wf(&self) -> bool {
        let n = self.nodes@.len();
        let p = self.path@;
        &&& p.len() == n
        &&& n > 0 ==> p[0].len() == 0
        &&& forall|x: int, k: int|
            0 <= x < n && 0 <= k < self.nodes@[x].children@.len() ==> {
                let (e, c) = #[trigger] self.nodes@[x].children@[k];
                &&& x < c < n
                &&& p[c as int] == p[x].push((x, e))
            }
        &&& forall|x: int, k1: int, k2: int|
            0 <= x < n && 0 <= k1 < self.nodes@[x].children@.len() && 0 <= k2
                < self.nodes@[x].children@.len() && k1 != k2 ==> (#[trigger] self.nodes@[x].children@[k1]).0
                != (#[trigger] self.nodes@[x].children@[k2]).0
        &&& forall|x: int, t: int|
            0 <= x < n && 0 <= t < p[x].len() ==> {
                let (a, e) = #[trigger] p[x][t];
                &&& 0 <= a < x
                &&& self.dist(self.nodes@[a].key, self.nodes@[x].key) == e
            }
        &&& forall|x: int| 0 < x < n ==> (#[trigger] p[x]).len() > 0
        &&& forall|x: int| 0 < x < n ==> #[trigger] self.filed_with_parent(x)
    }

    /// Node `x` is among its parent's children, under the distance of the
    /// branch taken there.
    pub open spec fn filed_with_parent(&self, x: int) -> bool {
        let a = self.path@[x].last().0;
        exists|k: int|
            0 <= k < self.nodes@[a].children@.len() && #[trigger] self.nodes@[a].children@[k] == (
                self.path@[x].last().1,
                x as usize,
            )
    }

    /// The position of the parent of node `x`.
    pub open spec fn parent(&self, x: int) -> int {
        self.path@[x].last().0
    }

    /// A key whose branch conditions hold all the way down to node `x`: at
    /// each node above it, the branch's distance is within `tol` of the
    /// query's distance to that node.
    pub open spec fn passes(&self, q: K, tol: u64, x: int) -> bool {
        forall|t: int|
            0 <= t < self.path@[x].len() ==> {
                let (a, e) = #[trigger] self.path@[x][t];
                let d = self.dist(q, self.nodes@[a].key);
                &&& e + tol >= d
                &&& d + tol >= e
            }
    }

    /// The nodes before position `i` that a search for `q` within `tol`
    /// reports, in order, with their distance to `q`.
    pub open spec fn found(&self, q: K, tol: u64, i: int) -> Seq<(u64, int)>
        decreases i,
    {
        if i <= 0 {
            Seq::empty()
        } else {
            let x = i - 1;
            let d = self.dist(q, self.nodes@[x].key);
            self.found(q, tol, i - 1) + if self.passes(q, tol, x) && d <= tol {
                seq![(d as u64, x)]
            } else {
                Seq::empty()
            }
        }
    }

    /// The keys of the tree, root first.
    pub open spec fn keys(&self) -> Seq<K> {
        self.nodes@.map_values(|nd: BKNode<K>| nd.key)
    }

    /// An empty tree over `metric`.
    pub fn new(metric: M) -> (r: BKTree<K, M>)
        ensures
            r.wf(),
            r.nodes@.len() == 0,
    {
        BKTree { nodes: Vec::new(), metric, path: Ghost(Seq::empty()) }
    }
}


impl<K, M: Metric<K>> BKTree<K, M> {
    /// Adds `key`: from the root down, it follows the child filed under its
    /// distance to each node, and is filed as a new child where there is
    /// none. Where it meets a node at distance 0 it is already held, and
    /// nothing changes.
    pub fn add(&mut self, key: K)
        requires
            old(self).wf(),
            old(self).nodes@.len() < usize::MAX,
        ensures
            final(self).wf(),
            final(self).keys() == old(self).keys().push(key) || (final(self).keys() == old(
                self,
            ).keys() && exists|x: int|
                0 <= x < old(self).nodes@.len() && old(self).dist(old(self).nodes@[x].key, key) == 0),
            final(self).keys() == old(self).keys().push(key) ==> (forall|t: int|
                0 <= t < final(self).path@.last().len() ==> {
                    let (a, e) = #[trigger] final(self).path@.last()[t];
                    final(self).dist(final(self).nodes@[a].key, key) == e
                }),
    {
        let n = self.nodes.len();
        if n == 0 {
            self.nodes.push(BKNode::new(key));
            self.path = Ghost(Seq::<Seq<(int, u64)>>::empty().push(Seq::<(int, u64)>::empty()));
            proof {
                assert(self.keys() =~= old(self).keys().push(key));
            }
            return ;
        }
        let mut cur: usize = 0;
        let mut d = self.metric.distance(&self.nodes[0].key, &key);
        loop
            invariant
                cur < n,
                n == self.nodes@.len(),
                *self == *old(self),
                self.wf(),
                d as nat == self.dist(self.nodes@[cur as int].key, key),
                forall|t: int|
                    0 <= t < self.path@[cur as int].len() ==> {
                        let (a, e) = #[trigger] self.path@[cur as int][t];
                        self.dist(self.nodes@[a].key, key) == e
                    },
            ensures
                cur < n,
                *self == *old(self),
                d as nat == self.dist(self.nodes@[cur as int].key, key),
                forall|t: int|
                    0 <= t < self.path@[cur as int].len() ==> {
                        let (a, e) = #[trigger] self.path@[cur as int][t];
                        self.dist(self.nodes@[a].key, key) == e
                    },
                d != 0 ==> forall|k: int|
                    0 <= k < self.nodes@[cur as int].children@.len() ==> (#[trigger] self.nodes@[cur as int].children@[k]).0
                        != d,
            decreases n - cur,
        {
            if d == 0 {
                break;
            }
            let m = self.nodes[cur].children.len();
            let mut k: usize = 0;
            let mut next: Option<usize> = None;
            while k < m
                invariant_except_break
                    next is None,
                invariant
                    k <= m,
                    cur < n,
                    n == self.nodes@.len(),
                    m == self.nodes@[cur as int].children@.len(),
                    forall|j: int| 0 <= j < k ==> (#[trigger] self.nodes@[cur as int].children@[j]).0 != d,
                ensures
                    match next {
                        None => forall|j: int|
                            0 <= j < m ==> (#[trigger] self.nodes@[cur as int].children@[j]).0 != d,
                        Some(c) => exists|j: int|
                            0 <= j < m && #[trigger] self.nodes@[cur as int].children@[j] == (d, c),
                    },
                decreases m - k,
            {
                let (e, c) = self.nodes[cur].children[k];
                if e == d {
                    next = Some(c);
                    assert(self.nodes@[cur as int].children@[k as int] == (d, c));
                    break;
                }
                k = k + 1;
            }
            match next {
                None => {
                    break;
                },
                Some(c) => {
                    proof {
                        let j = choose|j: int|
                            0 <= j < m && #[trigger] self.nodes@[cur as int].children@[j] == (d, c);
                        assert(self.nodes@[cur as int].children@[j] == (d, c));
                        let pc = self.path@[cur as int];
                        assert(self.path@[c as int] == pc.push((cur as int, d)));
                        assert forall|t: int| 0 <= t < self.path@[c as int].len() implies {
                            let (a, e) = #[trigger] self.path@[c as int][t];
                            self.dist(self.nodes@[a].key, key) == e
                        } by {
                            if t < pc.len() {
                                assert(self.path@[c as int][t] == pc[t]);
                            }
                        }
                    }
                    cur = c;
                    d = self.metric.distance(&self.nodes[c].key, &key);
                },
            }
        }
        if d == 0 {
            proof {
                assert(self.keys().len() != old(self).keys().push(key).len());
            }
            return ;
        }
        let ghost pc = self.path@[cur as int];
        let ghost old_nodes = self.nodes@;
        self.nodes.push(BKNode::new(key));
        self.nodes[cur].add_child(d, n);
        self.path = Ghost(self.path@.push(pc.push((cur as int, d))));
        proof {
            let nn = self.nodes@;
            let p = self.path@;
            assert(self.keys() =~= old(self).keys().push(key));
            assert forall|x: int| 0 <= x < n && x != cur implies nn[x] == old_nodes[x] by {}
            assert(nn[cur as int].children@ == old_nodes[cur as int].children@.push((d, n)));
            assert forall|x: int, k: int|
                0 <= x < nn.len() && 0 <= k < nn[x].children@.len() implies {
                let (e, c) = #[trigger] nn[x].children@[k];
                &&& x < c < nn.len()
                &&& p[c as int] == p[x].push((x, e))
            } by {
                if x == cur && k == old_nodes[cur as int].children@.len() {
                } else {
                    assert(nn[x].children@[k] == old_nodes[x].children@[k]);
                }
            }
            assert forall|x: int, k1: int, k2: int|
                0 <= x < nn.len() && 0 <= k1 < nn[x].children@.len() && 0 <= k2
                    < nn[x].children@.len() && k1 != k2 implies (#[trigger] nn[x].children@[k1]).0
                != (#[trigger] nn[x].children@[k2]).0 by {
                if x < n {
                    let l = old_nodes[x].children@.len();
                    if k1 < l {
                        assert(nn[x].children@[k1] == old_nodes[x].children@[k1]);
                    }
                    if k2 < l {
                        assert(nn[x].children@[k2] == old_nodes[x].children@[k2]);
                    }
                }
            }
            assert forall|x: int, t: int| 0 <= x < nn.len() && 0 <= t < p[x].len() implies {
                let (a, e) = #[trigger] p[x][t];
                &&& 0 <= a < x
                &&& self.dist(nn[a].key, nn[x].key) == e
            } by {
                if x == n {
                    if t < pc.len() {
                        assert(p[x][t] == pc[t]);
                        let (a, e) = pc[t];
                        assert(old(self).path@[cur as int][t] == pc[t]);
                    }
                } else {
                    assert(p[x] == old(self).path@[x]);
                    let (a, e) = p[x][t];
                    assert(nn[a] == old_nodes[a] || a == cur);
                }
            }
            assert forall|x: int| 0 < x < nn.len() implies #[trigger] self.filed_with_parent(x) by {
                if x == n {
                    let k = old_nodes[cur as int].children@.len() as int;
                    assert(nn[cur as int].children@[k] == (d, n));
                    assert(p[x].last() == (cur as int, d));
                } else {
                    assert(old(self).filed_with_parent(x));
                    assert(p[x] == old(self).path@[x]);
                    let a = p[x].last().0;
                    let k = choose|k: int|
                        0 <= k < old_nodes[a].children@.len() && #[trigger] old_nodes[a].children@[k]
                            == (p[x].last().1, x as usize);
                    assert(nn[a].children@[k] == old_nodes[a].children@[k]);
                }
            }
        }
    }
}


/// Whether `e` lies within `tol` of `d`.
fn within(e: u64, d: u64, tol: u64) -> (r: bool)
    ensures
        r == (e + tol >= d && d + tol >= e),
{
    if e >= d {
        e - d <= tol
    } else {
        d - e <= tol
    }
}

impl<K, M: Metric<K>> BKTree<K, M> {
    /// Searches for keys within `tolerance` of `key`, root first and by
    /// position after; below a node it follows only the children filed
    /// within `tolerance` of the query's distance to that node. Each found
    /// key comes with its distance to `key`.
    pub fn find<'a>(&'a self, key: &K, tolerance: u64) -> (r: Vec<(u64, &'a K)>)
        requires
            self.wf(),
        ensures
            r@.len() == self.found(*key, tolerance, self.nodes@.len() as int).len(),
            forall|k: int|
                0 <= k < r@.len() ==> {
                    let f = self.found(*key, tolerance, self.nodes@.len() as int)[k];
                    (#[trigger] r@[k]).0 == f.0 && *r@[k].1 == self.nodes@[f.1].key
                },
    {
        let n = self.nodes.len();
        let ghost q = *key;
        let mut reach: Vec<bool> = Vec::new();
        let mut i: usize = 0;
        while i < n
            invariant
                i <= n,
                reach@.len() == i,
                forall|x: int| 0 <= x < i ==> reach@[x] == (x == 0),
            decreases n - i,
        {
            reach.push(i == 0);
            i = i + 1;
        }
        let mut out: Vec<(u64, &'a K)> = Vec::new();
        i = 0;
        while i < n
            invariant
                i <= n,
                n == self.nodes@.len(),
                self.wf(),
                q == *key,
                reach@.len() == n,
                forall|x: int|
                    0 <= x < n ==> #[trigger] reach@[x] == (x == 0 || (self.parent(x) < i
                        && self.passes(q, tolerance, x))),
                out@.len() == self.found(q, tolerance, i as int).len(),
                forall|k: int|
                    0 <= k < out@.len() ==> {
                        let f = self.found(q, tolerance, i as int)[k];
                        (#[trigger] out@[k]).0 == f.0 && *out@[k].1 == self.nodes@[f.1].key
                    },
            decreases n - i,
        {
            let ghost fi = self.found(q, tolerance, i as int);
            proof {
                if i > 0 {
                    assert(self.parent(i as int) < i) by {
                        assert(self.path@[i as int].len() > 0);
                        let t = self.path@[i as int].len() - 1;
                        assert(self.path@[i as int][t] == self.path@[i as int].last());
                    }
                } else {
                    assert(self.path@[0].len() == 0);
                }
                assert(reach@[i as int] == self.passes(q, tolerance, i as int));
            }
            if reach[i] {
                let d = self.metric.distance(key, &self.nodes[i].key);
                if d <= tolerance {
                    out.push((d, &self.nodes[i].key));
                }
                proof {
                    let f1 = self.found(q, tolerance, i + 1);
                    if d <= tolerance {
                        assert(f1 == fi.push((d, i as int)));
                    } else {
                        assert(f1 =~= fi);
                    }
                }
                let m = self.nodes[i].children.len();
                let mut k: usize = 0;
                while k < m
                    invariant
                        k <= m,
                        i < n,
                        n == self.nodes@.len(),
                        self.wf(),
                        q == *key,
                        d as nat == self.dist(q, self.nodes@[i as int].key),
                        self.passes(q, tolerance, i as int),
                        m == self.nodes@[i as int].children@.len(),
                        reach@.len() == n,
                        forall|x: int|
                            0 <= x < n ==> #[trigger] reach@[x] == (x == 0 || (self.parent(x) < i
                                && self.passes(q, tolerance, x)) || (self.parent(x) == i && x > 0
                                && self.passes(q, tolerance, x) && exists|kk: int|
                                0 <= kk < k && self.nodes@[i as int].children@[kk].1 == x)),
                    decreases m - k,
                {
                    let (e, c) = self.nodes[i].children[k];
                    let ghost old_reach = reach@;
                    proof {
                        assert(self.nodes@[i as int].children@[k as int] == (e, c));
                        assert(self.path@[c as int] == self.path@[i as int].push((i as int, e)));
                        assert(self.parent(c as int) == i);
                        let pc = self.path@[c as int];
                        let pi = self.path@[i as int];
                        assert(self.passes(q, tolerance, c as int) == (e + tolerance >= d && d
                            + tolerance >= e)) by {
                            if e + tolerance >= d && d + tolerance >= e {
                                assert forall|t: int| 0 <= t < pc.len() implies {
                                    let (a, ee) = #[trigger] pc[t];
                                    let dd = self.dist(q, self.nodes@[a].key);
                                    &&& ee + tolerance >= dd
                                    &&& dd + tolerance >= ee
                                } by {
                                    if t < pi.len() {
                                        assert(pc[t] == pi[t]);
                                    }
                                }
                            } else {
                                let t = pi.len() as int;
                                assert(pc[t] == (i as int, e));
                            }
                        }
                    }
                    if within(e, d, tolerance) {
                        reach.set(c, true);
                    }
                    proof {
                        assert forall|x: int| 0 <= x < n implies #[trigger] reach@[x] == (x == 0 || (
                            self.parent(x) < i && self.passes(q, tolerance, x)) || (self.parent(x)
                            == i && x > 0 && self.passes(q, tolerance, x) && exists|kk: int|
                            0 <= kk < k + 1 && self.nodes@[i as int].children@[kk].1 == x)) by {
                            if x == c {
                                assert(self.nodes@[i as int].children@[k as int].1 == x);
                            } else {
                                assert(reach@[x] == old_reach[x]);
                                if exists|kk: int|
                                    0 <= kk < k + 1 && self.nodes@[i as int].children@[kk].1 == x {
                                    let kk = choose|kk: int|
                                        0 <= kk < k + 1 && self.nodes@[i as int].children@[kk].1 == x;
                                    assert(kk != k);
                                }
                            }
                        }
                    }
                    k = k + 1;
                }
                proof {
                    assert forall|x: int| 0 <= x < n implies #[trigger] reach@[x] == (x == 0 || (
                        self.parent(x) < i + 1 && self.passes(q, tolerance, x))) by {
                        if x > 0 && self.parent(x) == i && self.passes(q, tolerance, x) {
                            assert(self.filed_with_parent(x));
                            let kk = choose|kk: int|
                                0 <= kk < self.nodes@[i as int].children@.len()
                                    && #[trigger] self.nodes@[i as int].children@[kk] == (
                                    self.path@[x].last().1,
                                    x as usize,
                                );
                            assert(self.nodes@[i as int].children@[kk].1 == x);
                        }
                    }
                }
            } else {
                proof {
                    assert(self.found(q, tolerance, i + 1) =~= fi);
                    assert forall|x: int| 0 <= x < n implies #[trigger] reach@[x] == (x == 0 || (
                        self.parent(x) < i + 1 && self.passes(q, tolerance, x))) by {
                        if x > 0 && self.parent(x) == i && self.passes(q, tolerance, x) {
                            let px = self.path@[x];
                            assert(px.len() > 0);
                            assert(px.drop_last() == self.path@[i as int]) by {
                                assert(self.filed_with_parent(x));
                                let kk = choose|kk: int|
                                    0 <= kk < self.nodes@[i as int].children@.len()
                                        && #[trigger] self.nodes@[i as int].children@[kk] == (
                                        px.last().1,
                                        x as usize,
                                    );
                                let (e, c) = self.nodes@[i as int].children@[kk];
                                assert(self.path@[c as int] == self.path@[i as int].push((i as int, e)));
                                assert(px =~= self.path@[i as int].push((i as int, e)));
                            }
                            assert(self.passes(q, tolerance, i as int)) by {
                                let pi = self.path@[i as int];
                                assert forall|t: int| 0 <= t < pi.len() implies {
                                    let (a, e) = #[trigger] pi[t];
                                    let dd = self.dist(q, self.nodes@[a].key);
                                    &&& e + tolerance >= dd
                                    &&& dd + tolerance >= e
                                } by {
                                    assert(pi[t] == px[t]);
                                }
                            }
                        }
                    }
                }
            }
            i = i + 1;
        }
        out
    }

    /// Adds each of `keys` in turn, as `add` does.
    pub fn extend(&mut self, keys: Vec<K>)
        requires
            old(self).wf(),
            old(self).nodes@.len() + keys@.len() < usize::MAX,
        ensures
            final(self).wf(),
            final(self).nodes@.len() <= old(self).nodes@.len() + keys@.len(),
            forall|i: int|
                0 <= i < old(self).nodes@.len() ==> (#[trigger] final(self).keys()[i]) == old(
                    self,
                ).keys()[i],
    {
        let mut keys = keys;
        let ghost n0 = self.nodes@.len();
        let ghost k0 = keys@.len();
        let ghost ks0 = self.keys();
        while keys.len() > 0
            invariant
                self.wf(),
                self.nodes@.len() + keys@.len() <= n0 + k0,
                n0 + k0 < usize::MAX,
                self.nodes@.len() >= n0,
                forall|i: int| 0 <= i < n0 ==> (#[trigger] self.keys()[i]) == ks0[i],
            decreases keys@.len(),
        {
            let key = keys.remove(0);
            let ghost before = self.keys();
            let ghost len_before = self.nodes@.len();
            assert(before.len() == len_before);
            self.add(key);
            proof {
                assert(self.keys().len() == self.nodes@.len());
                assert(self.nodes@.len() == len_before || self.nodes@.len() == len_before + 1);
                assert forall|i: int| 0 <= i < n0 implies (#[trigger] self.keys()[i]) == ks0[i] by {
                    assert(before[i] == ks0[i]);
                    if self.keys() == before.push(key) {
                        assert(self.keys()[i] == before[i]);
                    }
                }
            }
        }
    }

    /// The first key found at distance 0 from `key`, if any.
    pub fn find_exact<'a>(&'a self, key: &K) -> (r: Option<&'a K>)
        requires
            self.wf(),
        ensures
            ({
                let f = self.found(*key, 0, self.nodes@.len() as int);
                match r {
                    None => f.len() == 0,
                    Some(k) => f.len() > 0 && *k == self.nodes@[f[0].1].key,
                }
            }),
    {
        let found = self.find(key, 0);
        if found.len() == 0 {
            None
        } else {
            let (_, k) = found[0];
            Some(k)
        }
    }

    pub proof fn lemma_found_contains(&self, q: K, tol: u64, i: int, x: int)
        requires
            0 <= x < i,
            self.passes(q, tol, x),
            self.dist(q, self.nodes@[x].key) <= tol,
        ensures
            exists|k: int|
                0 <= k < self.found(q, tol, i).len() && #[trigger] self.found(q, tol, i)[k] == (
                    self.dist(q, self.nodes@[x].key) as u64,
                    x,
                ),
        decreases i,
    {
        let f = self.found(q, tol, i);
        let f0 = self.found(q, tol, i - 1);
        if x == i - 1 {
            assert(f[f0.len() as int] == (self.dist(q, self.nodes@[x].key) as u64, x));
        } else {
            self.lemma_found_contains(q, tol, i - 1, x);
            let k = choose|k: int|
                0 <= k < f0.len() && #[trigger] f0[k] == (self.dist(q, self.nodes@[x].key) as u64, x);
            assert(f[k] == f0[k]);
        }
    }

    /// Where the metric obeys the triangle inequality between the query,
    /// a key and each node above it, a search reports that key whenever it
    /// lies within the tolerance.
    pub proof fn lemma_find_complete(&self, q: K, tol: u64, x: int)
        requires
            self.wf(),
            0 <= x < self.nodes@.len(),
            self.dist(q, self.nodes@[x].key) <= tol,
            forall|a: int|
                0 <= a < self.nodes@.len() ==> {
                    &&& #[trigger] self.dist(self.nodes@[a].key, self.nodes@[x].key) <= self.dist(
                        q,
                        self.nodes@[a].key,
                    ) + self.dist(q, self.nodes@[x].key)
                    &&& self.dist(q, self.nodes@[a].key) <= self.dist(
                        self.nodes@[a].key,
                        self.nodes@[x].key,
                    ) + self.dist(q, self.nodes@[x].key)
                },
        ensures
            exists|k: int|
                0 <= k < self.found(q, tol, self.nodes@.len() as int).len() && #[trigger] self.found(
                    q,
                    tol,
                    self.nodes@.len() as int,
                )[k] == (self.dist(q, self.nodes@[x].key) as u64, x),
    {
        let p = self.path@[x];
        assert forall|t: int| 0 <= t < p.len() implies {
            let (a, e) = #[trigger] p[t];
            let d = self.dist(q, self.nodes@[a].key);
            &&& e + tol >= d
            &&& d + tol >= e
        } by {
            let (a, e) = p[t];
            assert(self.dist(self.nodes@[a].key, self.nodes@[x].key) == e);
        }
        self.lemma_found_contains(q, tol, self.nodes@.len() as int, x);
    }
}

} // verus!
