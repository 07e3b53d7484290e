//! Prefix tree of keystroke sequences with optional commands at the nodes.
//!
//! Nodes live in an append-only arena (a growable vector indexed by integer
//! handles); index 0 is the synthetic root.  Registration only ever grows the
//! arena, so handles stay valid for the life of the tree.

use vstd::prelude::*;

verus! {

/// An ordered, immutable sequence of key codes; the unit of insertion and
/// lookup in the tree.
pub struct KeySequence(Vec<u16>);

impl View for KeySequence {
    type V = Seq<u16>;

    closed spec fn view(&self) -> Seq<u16> {
        self.0@
    }
}

impl KeySequence {
    /// Build a `KeySequence` from the currently accumulated buffer of codes.
    pub fn from(seq: &Vec<u16>) -> (r: Self)
        ensures
            r@ == seq@,
    {
        let v = seq.clone();
        proof {
            assert forall|i: int| 0 <= i < seq@.len() implies v@[i] == seq@[i] by {
                assert(cloned::<u16>(seq@[i], v@[i]));
            }
            assert(v@ =~= seq@);
        }
        KeySequence(v)
    }

    /// Number of key codes in the sequence.
    pub fn len(&self) -> (r: usize)
        ensures
            r == self@.len(),
    {
        self.0.len()
    }
}

impl PartialEq for KeySequence {
    /// Two sequences are equal iff they have the same length and are
    /// element-wise equal in order.
    fn eq(&self, other: &Self) -> (r: bool) {
        let n = self.0.len();
        if n != other.0.len() {
            return false;
        }
        for i in 0..n
            invariant
                n == self.0.len(),
                n == other.0.len(),
                forall|j: int| 0 <= j < i ==> self.0@[j] == other.0@[j],
        {
            if self.0[i] != other.0[i] {
                return false;
            }
        }
        proof {
            assert(self.0@ =~= other.0@);
        }
        true
    }
}

impl Eq for KeySequence {

}

impl vstd::std_specs::cmp::PartialEqSpecImpl for KeySequence {
    open spec fn obeys_eq_spec() -> bool {
        true
    }

    open spec fn eq_spec(&self, other: &KeySequence) -> bool {
        self@ == other@
    }
}

/// The view of an optional command string.
pub open spec fn command_view(c: Option<String>) -> Option<Seq<char>> {
    match c {
        Some(s) => Some(s@),
        None => None,
    }
}

/// One node of the tree: the key code it represents, the command attached
/// to it (if some registered sequence ends exactly here), and the arena
/// indices of its children.
struct TrieNode {
    key: u16,
    command: Option<String>,
    children: Vec<usize>,
}

// ---------------------------------------------------------------------------
// The tree skeleton: keys and child indices, with the commands stripped.
//
// Walks never read commands, so defining them over the skeleton makes it
// immediate that updating a command leaves every walk unchanged.
// ---------------------------------------------------------------------------
spec fn sk_nch(sk: Seq<(u16, Seq<int>)>, i: int) -> int {
    sk[i].1.len() as int
}

spec fn sk_ch(sk: Seq<(u16, Seq<int>)>, i: int, j: int) -> int {
    sk[i].1[j]
}

spec fn sk_key(sk: Seq<(u16, Seq<int>)>, i: int) -> u16 {
    sk[i].0
}

/// Well-formedness of a skeleton: the root exists, every child index points
/// past its parent (so walks make progress), sibling keys are unique, and no
/// index is the child of two parents (or of one parent twice), so every node
/// is reached by at most one key-code path from the root.
spec fn sk_wf(sk: Seq<(u16, Seq<int>)>) -> bool {
    &&& sk.len() >= 1
    &&& forall|i: int, j: int|
        0 <= i < sk.len() && 0 <= j < sk_nch(sk, i) ==> i < #[trigger] sk_ch(sk, i, j) < sk.len()
    &&& forall|i: int, j1: int, j2: int|
        0 <= i < sk.len() && 0 <= j1 < sk_nch(sk, i) && 0 <= j2 < sk_nch(sk, i) && j1 != j2
            ==> sk_key(sk, #[trigger] sk_ch(sk, i, j1)) != sk_key(sk, #[trigger] sk_ch(sk, i, j2))
    &&& forall|i1: int, j1: int, i2: int, j2: int|
        0 <= i1 < sk.len() && 0 <= j1 < sk_nch(sk, i1) && 0 <= i2 < sk.len() && 0 <= j2 < sk_nch(
            sk,
            i2,
        ) && #[trigger] sk_ch(sk, i1, j1) == #[trigger] sk_ch(sk, i2, j2) ==> i1 == i2 && j1 == j2
}

/// The child of node `i` with key `k`, searching children from position `j`.
spec fn cwk_from(sk: Seq<(u16, Seq<int>)>, i: int, j: int, k: u16) -> Option<int>
    decreases sk_nch(sk, i) - j,
{
    if j < 0 || j >= sk_nch(sk, i) {
        None
    } else if sk_key(sk, sk_ch(sk, i, j)) == k {
        Some(sk_ch(sk, i, j))
    } else {
        cwk_from(sk, i, j + 1, k)
    }
}

/// The child of node `i` with key `k`, if any.
spec fn cwk(sk: Seq<(u16, Seq<int>)>, i: int, k: u16) -> Option<int> {
    cwk_from(sk, i, 0, k)
}

/// The node reached from node `i` by consuming the codes of `s` in order,
/// or `None` if the walk falls off the tree.
spec fn walk(sk: Seq<(u16, Seq<int>)>, i: int, s: Seq<u16>) -> Option<int>
    decreases s.len(),
{
    if s.len() == 0 {
        Some(i)
    } else {
        match cwk(sk, i, s[0]) {
            Some(c) => walk(sk, c, s.drop_first()),
            None => None,
        }
    }
}

// ---------------------------------------------------------------------------
// Lemmas about child search and walks.
// ---------------------------------------------------------------------------
proof fn lemma_cwk_from_none_iff(sk: Seq<(u16, Seq<int>)>, i: int, j: int, k: u16)
    requires
        0 <= j,
    ensures
        cwk_from(sk, i, j, k) is None <==> (forall|j2: int|
            j <= j2 < sk_nch(sk, i) ==> sk_key(sk, #[trigger] sk_ch(sk, i, j2)) != k),
    decreases sk_nch(sk, i) - j,
{
    if j < sk_nch(sk, i) {
        lemma_cwk_from_none_iff(sk, i, j + 1, k);
    }
}

proof fn lemma_cwk_from_some(sk: Seq<(u16, Seq<int>)>, i: int, j: int, k: u16)
    requires
        0 <= j,
        cwk_from(sk, i, j, k) is Some,
    ensures
        sk_key(sk, cwk_from(sk, i, j, k)->Some_0) == k,
        exists|j2: int|
            j <= j2 < sk_nch(sk, i) && #[trigger] sk_ch(sk, i, j2) == cwk_from(sk, i, j, k)->Some_0,
    decreases sk_nch(sk, i) - j,
{
    if j < sk_nch(sk, i) && sk_key(sk, sk_ch(sk, i, j)) == k {
        assert(sk_ch(sk, i, j) == cwk_from(sk, i, j, k)->Some_0);
    } else {
        lemma_cwk_from_some(sk, i, j + 1, k);
        let j2 = choose|j2: int|
            j + 1 <= j2 < sk_nch(sk, i) && #[trigger] sk_ch(sk, i, j2) == cwk_from(
                sk,
                i,
                j + 1,
                k,
            )->Some_0;
        assert(sk_ch(sk, i, j2) == cwk_from(sk, i, j, k)->Some_0);
    }
}

proof fn lemma_cwk_range(sk: Seq<(u16, Seq<int>)>, i: int, k: u16)
    requires
        sk_wf(sk),
        0 <= i < sk.len(),
        cwk(sk, i, k) is Some,
    ensures
        i < cwk(sk, i, k)->Some_0 < sk.len(),
        sk_key(sk, cwk(sk, i, k)->Some_0) == k,
{
    lemma_cwk_from_some(sk, i, 0, k);
    let j2 = choose|j2: int|
        0 <= j2 < sk_nch(sk, i) && #[trigger] sk_ch(sk, i, j2) == cwk(sk, i, k)->Some_0;
    assert(i < sk_ch(sk, i, j2) < sk.len());
}

proof fn lemma_walk_append(sk: Seq<(u16, Seq<int>)>, i: int, a: Seq<u16>, b: Seq<u16>)
    ensures
        walk(sk, i, a + b) == (match walk(sk, i, a) {
            Some(m) => walk(sk, m, b),
            None => None,
        }),
    decreases a.len(),
{
    if a.len() == 0 {
        assert(a + b =~= b);
    } else {
        assert((a + b)[0] == a[0]);
        match cwk(sk, i, a[0]) {
            Some(c) => {
                assert((a + b).drop_first() =~= a.drop_first() + b);
                lemma_walk_append(sk, c, a.drop_first(), b);
            },
            None => {},
        }
    }
}

proof fn lemma_walk_range(sk: Seq<(u16, Seq<int>)>, i: int, s: Seq<u16>)
    requires
        sk_wf(sk),
        0 <= i < sk.len(),
        walk(sk, i, s) is Some,
    ensures
        i <= walk(sk, i, s)->Some_0 < sk.len(),
        s.len() > 0 ==> i < walk(sk, i, s)->Some_0,
    decreases s.len(),
{
    if s.len() > 0 {
        lemma_cwk_range(sk, i, s[0]);
        lemma_walk_range(sk, cwk(sk, i, s[0])->Some_0, s.drop_first());
    }
}

/// A single step of a walk, spelled out: walking one key `x` from node `p`
/// lands exactly on the child of `p` with key `x`.
proof fn lemma_walk_single(sk: Seq<(u16, Seq<int>)>, p: int, x: u16)
    ensures
        walk(sk, p, seq![x]) == cwk(sk, p, x),
{
    assert(seq![x].drop_first() =~= Seq::<u16>::empty());
    match cwk(sk, p, x) {
        Some(c) => {
            assert(walk(sk, c, seq![x].drop_first()) == Some(c));
        },
        None => {},
    }
}

/// In a well-formed skeleton the walk from the root is injective: two
/// sequences that land on the same node are the same sequence.
proof fn lemma_walk_inj(sk: Seq<(u16, Seq<int>)>, s1: Seq<u16>, s2: Seq<u16>)
    requires
        sk_wf(sk),
        walk(sk, 0, s1) is Some,
        walk(sk, 0, s1) == walk(sk, 0, s2),
    ensures
        s1 == s2,
    decreases s1.len(),
{
    let n = walk(sk, 0, s1)->Some_0;
    if s1.len() == 0 {
        if s2.len() > 0 {
            assert(s2 =~= s2.drop_last() + seq![s2.last()]);
            lemma_walk_append(sk, 0, s2.drop_last(), seq![s2.last()]);
            let p = walk(sk, 0, s2.drop_last())->Some_0;
            lemma_walk_single(sk, p, s2.last());
            lemma_walk_range(sk, 0, s2.drop_last());
            lemma_cwk_range(sk, p, s2.last());
            assert(false);
        }
        assert(s1 =~= s2);
    } else if s2.len() == 0 {
        assert(s1 =~= s1.drop_last() + seq![s1.last()]);
        lemma_walk_append(sk, 0, s1.drop_last(), seq![s1.last()]);
        let p = walk(sk, 0, s1.drop_last())->Some_0;
        lemma_walk_single(sk, p, s1.last());
        lemma_walk_range(sk, 0, s1.drop_last());
        lemma_cwk_range(sk, p, s1.last());
        assert(false);
    } else {
        assert(s1 =~= s1.drop_last() + seq![s1.last()]);
        assert(s2 =~= s2.drop_last() + seq![s2.last()]);
        lemma_walk_append(sk, 0, s1.drop_last(), seq![s1.last()]);
        lemma_walk_append(sk, 0, s2.drop_last(), seq![s2.last()]);
        let p1 = walk(sk, 0, s1.drop_last())->Some_0;
        let p2 = walk(sk, 0, s2.drop_last())->Some_0;
        lemma_walk_single(sk, p1, s1.last());
        lemma_walk_single(sk, p2, s2.last());
        lemma_walk_range(sk, 0, s1.drop_last());
        lemma_walk_range(sk, 0, s2.drop_last());
        lemma_cwk_from_some(sk, p1, 0, s1.last());
        lemma_cwk_from_some(sk, p2, 0, s2.last());
        let j1 = choose|j2: int| 0 <= j2 < sk_nch(sk, p1) && #[trigger] sk_ch(sk, p1, j2) == n;
        let j2 = choose|j2: int| 0 <= j2 < sk_nch(sk, p2) && #[trigger] sk_ch(sk, p2, j2) == n;
        assert(p1 == p2);
        assert(s1.last() == sk_key(sk, n));
        assert(s2.last() == sk_key(sk, n));
        lemma_walk_inj(sk, s1.drop_last(), s2.drop_last());
        assert(s1 =~= s2);
    }
}

// ---------------------------------------------------------------------------
// Linking a fresh leaf into the tree.
// ---------------------------------------------------------------------------
/// `sk2` is `sk` with one fresh leaf (key `k`, no children) appended and
/// linked as a new child of node `n`, which had no child with key `k`.
spec fn linked(sk: Seq<(u16, Seq<int>)>, sk2: Seq<(u16, Seq<int>)>, n: int, k: u16) -> bool {
    &&& 0 <= n < sk.len()
    &&& sk2.len() == sk.len() + 1
    &&& forall|i: int| 0 <= i < sk.len() && i != n ==> #[trigger] sk2[i] == sk[i]
    &&& sk2[n].0 == sk[n].0
    &&& sk2[n].1 == sk[n].1.push(sk.len() as int)
    &&& sk2[sk.len() as int].0 == k
    &&& sk2[sk.len() as int].1.len() == 0
    &&& cwk(sk, n, k) is None
}

proof fn lemma_link_cwk(
    sk: Seq<(u16, Seq<int>)>,
    sk2: Seq<(u16, Seq<int>)>,
    n: int,
    k: u16,
    i: int,
    x: u16,
    j: int,
)
    requires
        sk_wf(sk),
        linked(sk, sk2, n, k),
        0 <= i < sk.len(),
        0 <= j <= sk_nch(sk, i),
    ensures
        i != n ==> cwk_from(sk2, i, j, x) == cwk_from(sk, i, j, x),
        i == n ==> cwk_from(sk2, i, j, x) == (match cwk_from(sk, i, j, x) {
            Some(c) => Some(c),
            None => if x == k {
                Some(sk.len() as int)
            } else {
                None
            },
        }),
    decreases sk_nch(sk2, i) - j,
{
    let m = sk.len() as int;
    if i != n {
        assert(sk2[i] == sk[i]);
        if j < sk_nch(sk, i) {
            let c0 = sk_ch(sk, i, j);
            assert(i < c0 < sk.len());
            assert(sk_key(sk2, c0) == sk_key(sk, c0));
            if sk_key(sk, c0) != x {
                lemma_link_cwk(sk, sk2, n, k, i, x, j + 1);
            }
        }
    } else {
        assert(sk_nch(sk2, n) == sk_nch(sk, n) + 1);
        if j < sk_nch(sk, n) {
            let c0 = sk_ch(sk, n, j);
            assert(sk2[n].1[j] == sk[n].1[j]);
            assert(sk_ch(sk2, n, j) == c0);
            assert(n < c0 < sk.len());
            assert(sk_key(sk2, c0) == sk_key(sk, c0));
            if sk_key(sk, c0) != x {
                lemma_link_cwk(sk, sk2, n, k, i, x, j + 1);
            }
        } else {
            // j == sk_nch(sk, n): the appended slot holds the fresh leaf.
            assert(sk_ch(sk2, n, j) == m);
            assert(sk_key(sk2, m) == k);
            assert(cwk_from(sk, n, j, x) is None);
            if x == k {
                assert(cwk_from(sk2, n, j, x) == Some(m));
            } else {
                assert(cwk_from(sk2, n, j + 1, x) is None);
            }
        }
    }
}

proof fn lemma_link_wf(sk: Seq<(u16, Seq<int>)>, sk2: Seq<(u16, Seq<int>)>, n: int, k: u16)
    requires
        sk_wf(sk),
        linked(sk, sk2, n, k),
    ensures
        sk_wf(sk2),
{
    let m = sk.len() as int;
    // Children of old nodes are unchanged except for the one appended slot.
    assert forall|i: int, j: int| 0 <= i < sk2.len() && 0 <= j < sk_nch(sk2, i) implies i
        < #[trigger] sk_ch(sk2, i, j) < sk2.len() by {
        if i == m {
            assert(sk_nch(sk2, m) == 0);
        } else if i == n {
            if j < sk_nch(sk, n) {
                assert(sk_ch(sk2, n, j) == sk_ch(sk, n, j));
            } else {
                assert(sk_ch(sk2, n, j) == m);
            }
        } else {
            assert(sk2[i] == sk[i]);
            assert(sk_ch(sk2, i, j) == sk_ch(sk, i, j));
        }
    }
    lemma_cwk_from_none_iff(sk, n, 0, k);
    assert forall|i: int, j1: int, j2: int|
        0 <= i < sk2.len() && 0 <= j1 < sk_nch(sk2, i) && 0 <= j2 < sk_nch(sk2, i) && j1
            != j2 implies sk_key(sk2, #[trigger] sk_ch(sk2, i, j1)) != sk_key(
        sk2,
        #[trigger] sk_ch(sk2, i, j2),
    ) by {
        if i == m {
            assert(sk_nch(sk2, m) == 0);
        } else if i == n {
            let c1 = sk_ch(sk2, n, j1);
            let c2 = sk_ch(sk2, n, j2);
            if j1 < sk_nch(sk, n) && j2 < sk_nch(sk, n) {
                assert(c1 == sk_ch(sk, n, j1) && c2 == sk_ch(sk, n, j2));
                assert(sk_key(sk2, c1) == sk_key(sk, c1) && sk_key(sk2, c2) == sk_key(sk, c2));
            } else if j1 < sk_nch(sk, n) {
                assert(c2 == m && c1 == sk_ch(sk, n, j1));
                assert(sk_key(sk2, c2) == k);
                assert(sk_key(sk2, c1) == sk_key(sk, c1));
                assert(sk_key(sk, c1) != k);
            } else if j2 < sk_nch(sk, n) {
                assert(c1 == m && c2 == sk_ch(sk, n, j2));
                assert(sk_key(sk2, c1) == k);
                assert(sk_key(sk2, c2) == sk_key(sk, c2));
                assert(sk_key(sk, c2) != k);
            }
        } else {
            assert(sk2[i] == sk[i]);
            assert(sk_ch(sk2, i, j1) == sk_ch(sk, i, j1));
            assert(sk_ch(sk2, i, j2) == sk_ch(sk, i, j2));
            assert(sk_key(sk2, sk_ch(sk, i, j1)) == sk_key(sk, sk_ch(sk, i, j1)));
            assert(sk_key(sk2, sk_ch(sk, i, j2)) == sk_key(sk, sk_ch(sk, i, j2)));
        }
    }
    assert forall|i1: int, j1: int, i2: int, j2: int|
        0 <= i1 < sk2.len() && 0 <= j1 < sk_nch(sk2, i1) && 0 <= i2 < sk2.len() && 0 <= j2
            < sk_nch(sk2, i2) && #[trigger] sk_ch(sk2, i1, j1) == #[trigger] sk_ch(
        sk2,
        i2,
        j2,
    ) implies i1 == i2 && j1 == j2 by {
        // Translate each slot back to the old skeleton, or to the fresh slot.
        let old1 = i1 != m && !(i1 == n && j1 == sk_nch(sk, n));
        let old2 = i2 != m && !(i2 == n && j2 == sk_nch(sk, n));
        if i1 == m || i2 == m {
            assert(sk_nch(sk2, m) == 0);
        } else {
            if old1 {
                if i1 == n {
                    assert(sk_ch(sk2, i1, j1) == sk_ch(sk, i1, j1));
                } else {
                    assert(sk2[i1] == sk[i1]);
                    assert(sk_ch(sk2, i1, j1) == sk_ch(sk, i1, j1));
                }
                assert(sk_ch(sk, i1, j1) < sk.len());
            } else {
                assert(sk_ch(sk2, i1, j1) == m);
            }
            if old2 {
                if i2 == n {
                    assert(sk_ch(sk2, i2, j2) == sk_ch(sk, i2, j2));
                } else {
                    assert(sk2[i2] == sk[i2]);
                    assert(sk_ch(sk2, i2, j2) == sk_ch(sk, i2, j2));
                }
                assert(sk_ch(sk, i2, j2) < sk.len());
            } else {
                assert(sk_ch(sk2, i2, j2) == m);
            }
        }
    }
}

/// `s` walks from `i` to the linked-at node `n` and then takes one more step
/// with key `k` -- the only way a walk can use the freshly linked edge.
spec fn reaches_then(sk: Seq<(u16, Seq<int>)>, i: int, s: Seq<u16>, n: int, k: u16) -> bool {
    s.len() >= 1 && walk(sk, i, s.drop_last()) == Some(n) && s.last() == k
}

proof fn lemma_link_walk(
    sk: Seq<(u16, Seq<int>)>,
    sk2: Seq<(u16, Seq<int>)>,
    n: int,
    k: u16,
    i: int,
    s: Seq<u16>,
)
    requires
        sk_wf(sk),
        linked(sk, sk2, n, k),
        0 <= i < sk.len(),
    ensures
        walk(sk2, i, s) == (match walk(sk, i, s) {
            Some(v) => Some(v),
            None => if reaches_then(sk, i, s, n, k) {
                Some(sk.len() as int)
            } else {
                None
            },
        }),
    decreases s.len(),
{
    let m = sk.len() as int;
    if s.len() == 0 {
    } else {
        let x = s[0];
        let rest = s.drop_first();
        lemma_link_cwk(sk, sk2, n, k, i, x, 0);
        match cwk(sk, i, x) {
            Some(c) => {
                lemma_cwk_range(sk, i, x);
                lemma_link_walk(sk, sk2, n, k, c, rest);
                if walk(sk, c, rest) is None {
                    // rest is nonempty, so s has length at least 2.
                    let sd = s.drop_last();
                    assert(sd.len() >= 1);
                    assert(sd[0] == x);
                    assert(sd.drop_first() =~= rest.drop_last());
                    assert(s.last() == rest.last());
                    assert(walk(sk, i, sd) == walk(sk, c, rest.drop_last()));
                    assert(reaches_then(sk, i, s, n, k) == reaches_then(sk, c, rest, n, k));
                }
            },
            None => {
                if i == n && x == k {
                    assert(cwk(sk2, i, x) == Some(m));
                    if rest.len() == 0 {
                        assert(walk(sk2, m, rest) == Some(m));
                        assert(s.drop_last() =~= Seq::<u16>::empty());
                        assert(walk(sk, i, s.drop_last()) == Some(i));
                        assert(s.last() == x);
                        assert(reaches_then(sk, i, s, n, k));
                    } else {
                        assert(sk_nch(sk2, m) == 0);
                        assert(cwk(sk2, m, rest[0]) is None);
                        assert(walk(sk2, m, rest) is None);
                        let sd = s.drop_last();
                        assert(sd.len() >= 1);
                        assert(sd[0] == x);
                        assert(walk(sk, i, sd) is None);
                        assert(!reaches_then(sk, i, s, n, k));
                    }
                } else {
                    assert(cwk(sk2, i, x) is None);
                    if s.len() == 1 {
                        assert(s.drop_last() =~= Seq::<u16>::empty());
                        assert(walk(sk, i, s.drop_last()) == Some(i));
                        assert(s.last() == x);
                        assert(!reaches_then(sk, i, s, n, k));
                    } else {
                        let sd = s.drop_last();
                        assert(sd.len() >= 1);
                        assert(sd[0] == x);
                        assert(walk(sk, i, sd) is None);
                        assert(!reaches_then(sk, i, s, n, k));
                    }
                }
            },
        }
    }
}

// ---------------------------------------------------------------------------
// The tree itself.
// ---------------------------------------------------------------------------
/// The three possible outcomes of looking a sequence up in the tree.
pub enum FindOutcome {
    /// No registered path spells the sequence: a dead end.
    NoMatch,
    /// The path exists but carries no command: a proper prefix of one or
    /// more registered sequences, still accumulating.
    Prefix,
    /// The path exists and carries this command.
    Found(String),
}

/// A prefix tree mapping key-code sequences to optional command strings.
pub struct KTree {
    nodes: Vec<TrieNode>,
}

impl KTree {
    /// The skeleton of the arena: keys and child indices, commands stripped.
    closed spec fn skel(self) -> Seq<(u16, Seq<int>)> {
        Seq::new(
            self.nodes@.len(),
            |i: int|
                (
                    self.nodes@[i].key,
                    Seq::new(
                        self.nodes@[i].children@.len(),
                        |j: int| self.nodes@[i].children@[j] as int,
                    ),
                ),
        )
    }

    /// Number of nodes in the arena, the root included.
    pub closed spec fn node_count(self) -> int {
        self.nodes@.len() as int
    }

    /// Structural well-formedness of the arena.
    pub closed spec fn wf(self) -> bool {
        sk_wf(self.skel())
    }

    /// The mathematical content of the tree: for a sequence `s`,
    /// `None` means no registered path spells `s`; `Some(None)` means the
    /// path exists but no command is attached to its last node;
    /// `Some(Some(c))` means the path exists and carries command `c`.
    pub closed spec fn lookup(self, s: Seq<u16>) -> Option<Option<Seq<char>>> {
        match walk(self.skel(), 0, s) {
            Some(n) => Some(command_view(self.nodes@[n].command)),
            None => None,
        }
    }

    /// Create a new empty tree: only the root, no command anywhere.
    pub fn new() -> (r: Self)
        ensures
            r.wf(),
            r.node_count() == 1,
            forall|s: Seq<u16>| s.len() > 0 ==> #[trigger] r.lookup(s) is None,
            r.lookup(Seq::<u16>::empty()) == Some(Option::<Seq<char>>::None),
    {
        let mut nodes: Vec<TrieNode> = Vec::new();
        nodes.push(TrieNode { key: 0, command: None, children: Vec::new() });
        let r = KTree { nodes };
        proof {
            let sk = r.skel();
            assert(sk_nch(sk, 0) == 0);
            assert forall|s: Seq<u16>| s.len() > 0 implies #[trigger] r.lookup(s) is None by {
                assert(cwk(sk, 0, s[0]) is None);
            }
        }
        r
    }

    /// Find the index of the child of node `i` carrying key code `k`.
    fn child_index(&self, i: usize, k: u16) -> (r: Option<usize>)
        requires
            self.wf(),
            i < self.nodes@.len(),
        ensures
            match r {
                Some(c) => cwk(self.skel(), i as int, k) == Some(c as int) && i < c
                    < self.nodes@.len(),
                None => cwk(self.skel(), i as int, k) is None,
            },
    {
        let nc = self.nodes[i].children.len();
        let mut j: usize = 0;
        while j < nc
            invariant
                self.wf(),
                i < self.nodes@.len(),
                j <= nc,
                nc == sk_nch(self.skel(), i as int),
                cwk(self.skel(), i as int, k) == cwk_from(self.skel(), i as int, j as int, k),
            decreases nc - j,
        {
            let c = self.nodes[i].children[j];
            proof {
                assert(sk_ch(self.skel(), i as int, j as int) == c as int);
                assert(i < c < self.nodes@.len());
            }
            if self.nodes[c].key == k {
                proof {
                    assert(sk_key(self.skel(), c as int) == self.nodes@[c as int].key);
                }
                return Some(c);
            }
            j = j + 1;
        }
        None
    }

    /// Look a sequence up by walking from the root through children matching
    /// each key code of `seq` in order.
    ///
    /// The three outcomes are exactly the three cases of [`Self::lookup`]:
    /// the path may not exist at all, exist without a command, or exist with
    /// a command, which is returned.
    pub fn find(&self, seq: &KeySequence) -> (r: FindOutcome)
        requires
            self.wf(),
        ensures
            match r {
                FindOutcome::NoMatch => self.lookup(seq@) is None,
                FindOutcome::Prefix => self.lookup(seq@) == Some(Option::<Seq<char>>::None),
                FindOutcome::Found(c) => self.lookup(seq@) == Some(Some(c@)),
            },
    {
        let n = seq.0.len();
        let mut node: usize = 0;
        let mut i: usize = 0;
        while i < n
            invariant
                self.wf(),
                n == seq@.len(),
                i <= n,
                node < self.nodes@.len(),
                walk(self.skel(), 0, seq@.subrange(0, i as int)) == Some(node as int),
            decreases n - i,
        {
            let k = seq.0[i];
            let copt = self.child_index(node, k);
            proof {
                let sk = self.skel();
                let pre = seq@.subrange(0, i as int);
                assert(seq@.subrange(0, i as int + 1) =~= pre + seq![k]);
                lemma_walk_append(sk, 0, pre, seq![k]);
                lemma_walk_single(sk, node as int, k);
                if copt is None {
                    assert(seq@ =~= seq@.subrange(0, i as int + 1) + seq@.subrange(
                        i as int + 1,
                        n as int,
                    ));
                    lemma_walk_append(
                        sk,
                        0,
                        seq@.subrange(0, i as int + 1),
                        seq@.subrange(i as int + 1, n as int),
                    );
                }
            }
            match copt {
                Some(c) => {
                    node = c;
                },
                None => {
                    return FindOutcome::NoMatch;
                },
            }
            i = i + 1;
        }
        proof {
            assert(seq@.subrange(0, n as int) =~= seq@);
        }
        match &self.nodes[node].command {
            Some(c) => FindOutcome::Found(c.clone()),
            None => FindOutcome::Prefix,
        }
    }

    /// Register `seq` with the given command, creating any missing nodes
    /// along the path and overwriting the command stored at the landing
    /// node (last registration for an identical sequence wins).
    ///
    /// Insertion always succeeds, for any sequence including the empty one
    /// (which sets the command on the root).  The tree only ever grows, and
    /// does not grow at all when the path already exists.
    pub fn add(&mut self, seq: &KeySequence, command: Option<String>)
        requires
            old(self).wf(),
        ensures
            final(self).wf(),
            inserted(*old(self), *final(self), seq@, command_view(command)),
    {
        let ghost t0 = *self;
        let n = seq.0.len();
        let mut node: usize = 0;
        let mut i: usize = 0;
        proof {
            assert forall|s: Seq<u16>| #[trigger] self.lookup(s) == (if s.is_prefix_of(
                seq@.subrange(0, 0),
            ) && t0.lookup(s) is None {
                Some(Option::<Seq<char>>::None)
            } else {
                t0.lookup(s)
            }) by {
                if s.is_prefix_of(seq@.subrange(0, 0)) {
                    assert(s =~= Seq::<u16>::empty());
                    assert(t0.lookup(s) is Some);
                }
            }
        }
        while i < n
            invariant
                self.wf(),
                t0.wf(),
                n == seq@.len(),
                i <= n,
                node < self.nodes@.len(),
                walk(self.skel(), 0, seq@.subrange(0, i as int)) == Some(node as int),
                forall|s: Seq<u16>| #[trigger] self.lookup(s) == (if s.is_prefix_of(
                    seq@.subrange(0, i as int),
                ) && t0.lookup(s) is None {
                    Some(Option::<Seq<char>>::None)
                } else {
                    t0.lookup(s)
                }),
                t0.lookup(seq@) is Some ==> self.nodes@.len() == t0.nodes@.len(),
                self.nodes@.len() >= t0.nodes@.len(),
            decreases n - i,
        {
            let k = seq.0[i];
            let copt = self.child_index(node, k);
            proof {
                let sk = self.skel();
                let pre = seq@.subrange(0, i as int);
                let pre1 = seq@.subrange(0, i as int + 1);
                assert(pre1 =~= pre + seq![k]);
                lemma_walk_append(sk, 0, pre, seq![k]);
                lemma_walk_single(sk, node as int, k);
            }
            match copt {
                Some(c) => {
                    proof {
                        let pre = seq@.subrange(0, i as int);
                        let pre1 = seq@.subrange(0, i as int + 1);
                        // The path for pre1 already existed, so the frame
                        // condition is unchanged in substance.
                        assert(self.lookup(pre1) is Some);
                        assert(!pre1.is_prefix_of(pre));
                        assert(t0.lookup(pre1) is Some);
                        assert forall|s: Seq<u16>| #[trigger] self.lookup(s) == (if s.is_prefix_of(
                            pre1,
                        ) && t0.lookup(s) is None {
                            Some(Option::<Seq<char>>::None)
                        } else {
                            t0.lookup(s)
                        }) by {
                            if s.is_prefix_of(pre1) && !s.is_prefix_of(pre) {
                                assert(s.len() == pre1.len());
                                assert(s =~= pre1);
                            }
                        }
                    }
                    node = c;
                },
                None => {
                    let m = self.nodes.len();
                    let ghost tc = *self;
                    self.nodes.push(TrieNode { key: k, command: None, children: Vec::new() });
                    self.nodes[node].children.push(m);
                    proof {
                        let sk = tc.skel();
                        let sk2 = self.skel();
                        let pre = seq@.subrange(0, i as int);
                        let pre1 = seq@.subrange(0, i as int + 1);
                        // Establish the pointwise `linked` relation between
                        // the old and the new skeleton.
                        assert forall|i2: int| 0 <= i2 < sk.len() && i2 != node implies
                            #[trigger] sk2[i2] == sk[i2] by {
                            assert(self.nodes@[i2] == tc.nodes@[i2]);
                            assert(sk2[i2].1 =~= sk[i2].1);
                        }
                        assert(sk2[node as int].1 =~= sk[node as int].1.push(m as int));
                        assert(sk2[m as int].0 == k);
                        assert(sk2[m as int].1.len() == 0);
                        assert(linked(sk, sk2, node as int, k));
                        lemma_link_wf(sk, sk2, node as int, k);
                        // Walks in the new tree.
                        assert(walk(sk, 0, pre1) is None);
                        assert(reaches_then(sk, 0, pre1, node as int, k)) by {
                            assert(pre1.drop_last() =~= pre);
                            assert(pre1.last() == k);
                        }
                        lemma_link_walk(sk, sk2, node as int, k, 0, pre1);
                        assert(walk(sk2, 0, pre1) == Some(m as int));
                        // Commands of old nodes are unchanged, and the new
                        // node has none.
                        assert forall|s: Seq<u16>| #[trigger] self.lookup(s) == (if s.is_prefix_of(
                            pre1,
                        ) && t0.lookup(s) is None {
                            Some(Option::<Seq<char>>::None)
                        } else {
                            t0.lookup(s)
                        }) by {
                            lemma_link_walk(sk, sk2, node as int, k, 0, s);
                            match walk(sk, 0, s) {
                                Some(v) => {
                                    lemma_walk_range(sk, 0, s);
                                    assert(self.nodes@[v].command == tc.nodes@[v].command);
                                    assert(self.lookup(s) == tc.lookup(s));
                                    if s.is_prefix_of(pre1) && !s.is_prefix_of(pre) {
                                        assert(s =~= pre1);
                                        assert(false);
                                    }
                                },
                                None => {
                                    assert(tc.lookup(s) is None);
                                    assert(t0.lookup(s) is None);
                                    if reaches_then(sk, 0, s, node as int, k) {
                                        // s is exactly pre1.
                                        lemma_walk_inj(sk, s.drop_last(), pre);
                                        assert(s.drop_last() == pre);
                                        assert(s =~= pre1);
                                        assert(self.lookup(s) == Some(
                                            command_view(self.nodes@[m as int].command),
                                        ));
                                        assert(self.nodes@[m as int].command is None);
                                    } else {
                                        assert(self.lookup(s) is None);
                                        if s.is_prefix_of(pre1) && !s.is_prefix_of(pre) {
                                            assert(s =~= pre1);
                                            assert(reaches_then(sk, 0, s, node as int, k)) by {
                                                assert(pre1.drop_last() =~= pre);
                                            }
                                            assert(false);
                                        }
                                    }
                                },
                            }
                        }
                        // If the whole sequence was registered before, this
                        // branch is unreachable.
                        if t0.lookup(seq@) is Some {
                            lemma_registered_prefix_exists(t0, seq@, pre1);
                            assert(t0.lookup(pre1) is Some);
                            assert(!pre1.is_prefix_of(pre));
                            assert(tc.lookup(pre1) is Some);
                            assert(false);
                        }
                    }
                    node = m;
                },
            }
            i = i + 1;
        }
        proof {
            assert(seq@.subrange(0, n as int) =~= seq@);
        }
        let ghost tb = *self;
        self.nodes[node].command = command;
        proof {
            let sk = tb.skel();
            let sk2 = self.skel();
            assert forall|i2: int| 0 <= i2 < sk2.len() implies sk2[i2] == sk[i2] by {
                assert(sk2[i2].1 =~= sk[i2].1);
            }
            assert(sk2 =~= sk);
            assert(walk(sk2, 0, seq@) == Some(node as int));
            assert(self.lookup(seq@) == Some(command_view(command)));
            assert forall|t: Seq<u16>| t != seq@ implies #[trigger] self.lookup(t) == (
            if t.is_prefix_of(seq@) && t0.lookup(t) is None {
                Some(Option::<Seq<char>>::None)
            } else {
                t0.lookup(t)
            }) by {
                match walk(sk, 0, t) {
                    Some(v) => {
                        if v == node as int {
                            lemma_walk_inj(sk, t, seq@);
                            assert(false);
                        }
                        lemma_walk_range(sk, 0, t);
                        assert(self.nodes@[v].command == tb.nodes@[v].command);
                        assert(self.lookup(t) == tb.lookup(t));
                    },
                    None => {
                        assert(self.lookup(t) is None);
                        assert(tb.lookup(t) is None);
                    },
                }
            }
        }
    }
}

/// One row of the diagnostic rendering of the tree: one node, at its
/// depth below the root.
pub struct DumpRow {
    pub depth: usize,
    pub key: u16,
    pub command: Option<String>,
}

impl KTree {
    /// Number of children of node `n`.
    pub closed spec fn child_count(self, n: int) -> int {
        sk_nch(self.skel(), n)
    }

    /// The rows of the diagnostic rendering of the subtree rooted at node
    /// `n`: the node itself, then the subtrees of its children, in order.
    pub closed spec fn rows_from(self, n: int, depth: int) -> Seq<DumpRow>
        decreases self.node_count() - n, self.child_count(n) + 1,
    {
        if 0 <= n < self.node_count() {
            seq![
                DumpRow {
                    depth: depth as usize,
                    key: self.nodes@[n].key,
                    command: self.nodes@[n].command,
                },
            ] + self.rows_children(n, 0, depth)
        } else {
            Seq::<DumpRow>::empty()
        }
    }

    spec fn rows_children(self, n: int, j: int, depth: int) -> Seq<DumpRow>
        decreases self.node_count() - n, self.child_count(n) - j,
    {
        if 0 <= n < self.node_count() && 0 <= j < sk_nch(self.skel(), n) {
            let c = sk_ch(self.skel(), n, j);
            (if n < c < self.node_count() {
                self.rows_from(c, depth + 1)
            } else {
                Seq::<DumpRow>::empty()
            }) + self.rows_children(n, j + 1, depth)
        } else {
            Seq::<DumpRow>::empty()
        }
    }

    fn dump_into(&self, n: usize, depth: usize, out: &mut Vec<DumpRow>)
        requires
            self.wf(),
            n < self.nodes@.len(),
            depth <= n,
        ensures
            final(out)@ == old(out)@ + self.rows_from(n as int, depth as int),
        decreases self.nodes@.len() - n,
    {
        let ghost out0 = out@;
        let command = match &self.nodes[n].command {
            Some(c) => Some(c.clone()),
            None => None,
        };
        let row = DumpRow { depth, key: self.nodes[n].key, command };
        out.push(row);
        let nc = self.nodes[n].children.len();
        proof {
            assert(nc == sk_nch(self.skel(), n as int));
        }
        let mut j: usize = 0;
        while j < nc
            invariant
                self.wf(),
                n < self.nodes@.len(),
                depth <= n,
                j <= nc,
                nc == sk_nch(self.skel(), n as int),
                out0 + self.rows_from(n as int, depth as int) =~= out@ + self.rows_children(
                    n as int,
                    j as int,
                    depth as int,
                ),
            decreases nc - j,
        {
            let c = self.nodes[n].children[j];
            proof {
                assert(sk_ch(self.skel(), n as int, j as int) == c as int);
                assert(n < c < self.nodes@.len());
            }
            let ghost out_pre = out@;
            self.dump_into(c, depth + 1, out);
            proof {
                assert(self.rows_children(n as int, j as int, depth as int) == self.rows_from(
                    c as int,
                    depth as int + 1,
                ) + self.rows_children(n as int, j as int + 1, depth as int));
                assert(out@ + self.rows_children(n as int, j as int + 1, depth as int) =~= out_pre
                    + self.rows_children(n as int, j as int, depth as int));
            }
            j = j + 1;
        }
        proof {
            assert(self.rows_children(n as int, nc as int, depth as int)
                =~= Seq::<DumpRow>::empty());
            assert(out@ =~= out0 + self.rows_from(n as int, depth as int));
        }
    }

    /// The diagnostic rendering of the whole tree, row by row: each node
    /// with its depth, key code and command, the root first, each subtree
    /// before its right siblings.
    pub fn dump(&self) -> (r: Vec<DumpRow>)
        requires
            self.wf(),
        ensures
            r@ == self.rows_from(0, 0),
    {
        let mut out: Vec<DumpRow> = Vec::new();
        self.dump_into(0, 0, &mut out);
        proof {
            assert(out@ =~= Seq::<DumpRow>::empty() + self.rows_from(0, 0));
        }
        out
    }
}

/// The relation between a tree before and after registering sequence `s`
/// with command `c`: exactly `s` now carries `c`; every path that was
/// missing and is a proper prefix of `s` now exists without a command;
/// every other sequence is untouched; and the arena grows only when nodes
/// were actually missing.
pub open spec fn inserted(pre: KTree, post: KTree, s: Seq<u16>, c: Option<Seq<char>>) -> bool {
    &&& post.wf()
    &&& post.lookup(s) == Some(c)
    &&& forall|t: Seq<u16>|
        t != s ==> #[trigger] post.lookup(t) == (if t.is_prefix_of(s) && pre.lookup(t) is None {
            Some(Option::<Seq<char>>::None)
        } else {
            pre.lookup(t)
        })
    &&& (pre.lookup(s) is Some ==> post.node_count() == pre.node_count())
    &&& post.node_count() >= pre.node_count()
}

/// Registering a sequence makes it look up to exactly the registered
/// command, immediately afterwards, for any sequence including the empty
/// one.
pub proof fn lemma_insert_then_find(pre: KTree, post: KTree, s: Seq<u16>, c: Option<Seq<char>>)
    requires
        inserted(pre, post, s, c),
    ensures
        post.lookup(s) == Some(c),
{
}

/// Registering `s` does not affect the lookup of any `t` when `s` and `t`
/// are different and neither is a prefix of the other.
pub proof fn lemma_insert_keeps_unrelated(
    pre: KTree,
    post: KTree,
    s: Seq<u16>,
    c: Option<Seq<char>>,
    t: Seq<u16>,
)
    requires
        inserted(pre, post, s, c),
        t != s,
        !t.is_prefix_of(s),
        !s.is_prefix_of(t),
    ensures
        post.lookup(t) == pre.lookup(t),
{
}

/// Re-registering an already registered sequence with a different command
/// replaces the stored command (last write wins) without adding any node.
pub proof fn lemma_reinsert_replaces(pre: KTree, post: KTree, s: Seq<u16>, c: Option<Seq<char>>)
    requires
        inserted(pre, post, s, c),
        pre.lookup(s) is Some,
    ensures
        post.lookup(s) == Some(c),
        post.node_count() == pre.node_count(),
{
}

/// Every prefix of a registered path is itself a path in the tree: walking
/// toward a deeper registered sequence passes only through existing nodes.
pub proof fn lemma_registered_prefix_exists(t: KTree, s: Seq<u16>, p: Seq<u16>)
    requires
        t.wf(),
        t.lookup(s) is Some,
        p.is_prefix_of(s),
    ensures
        t.lookup(p) is Some,
{
    assert(s =~= p + s.skip(p.len() as int));
    lemma_walk_append(t.skel(), 0, p, s.skip(p.len() as int));
    lemma_walk_range(t.skel(), 0, p);
}

} // verus!

