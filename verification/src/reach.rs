//! Causal reachability in an arena: the transitive closure of the enabling
//! edges, computed by Floyd-Warshall and proved to be path reachability.
use crate::arena::{Arena, ArenaView};
use vstd::prelude::*;

verus! {

/// An enabling edge between two events of the arena.
pub open spec fn edge(a: ArenaView, s: usize, t: usize) -> bool {
    s < a.events.len() && t < a.events.len() && a.enabling.contains((s, t))
}

/// `p` is a path of at least one edge.
pub open spec fn is_path(a: ArenaView, p: Seq<usize>) -> bool {
    &&& p.len() >= 2
    &&& forall|q: int| 0 <= q < p.len() - 1 ==> #[trigger] edge_at(a, p, q)
}

/// The step from position `q` of `p` to the next is an edge.
pub open spec fn edge_at(a: ArenaView, p: Seq<usize>, q: int) -> bool {
    edge(a, p[q], p[q + 1])
}

/// Every node strictly inside the path is below `k`.
pub open spec fn interior_below(p: Seq<usize>, k: int) -> bool {
    forall|q: int| 0 < q < p.len() - 1 ==> #[trigger] p[q] < k
}

/// `y` is reachable from `x` through one or more enabling edges.
pub open spec fn reaches(a: ArenaView, x: usize, y: usize) -> bool {
    exists|p: Seq<usize>| #[trigger] is_path(a, p) && p[0] == x && p.last() == y
}

/// Reachability through intermediate events below `k` (Floyd-Warshall's
/// stages).
pub open spec fn fw(a: ArenaView, x: usize, y: usize, k: nat) -> bool
    decreases k,
{
    if k == 0 {
        edge(a, x, y)
    } else {
        let m = (k - 1) as usize;
        fw(a, x, y, (k - 1) as nat) || (fw(a, x, m, (k - 1) as nat) && fw(a, m, y, (k - 1) as nat))
    }
}

/// Going through `k - 1` adds nothing to paths that end or start there.
pub proof fn lemma_fw_stable(a: ArenaView, x: usize, k: nat)
    requires
        k > 0,
        k - 1 <= usize::MAX,
    ensures
        fw(a, x, (k - 1) as usize, k) == fw(a, x, (k - 1) as usize, (k - 1) as nat),
        fw(a, (k - 1) as usize, x, k) == fw(a, (k - 1) as usize, x, (k - 1) as nat),
{
}

/// A path with interior below `k` gives stage `k` reachability.
pub proof fn lemma_path_to_fw(a: ArenaView, p: Seq<usize>, k: nat)
    requires
        is_path(a, p),
        interior_below(p, k as int),
        k <= usize::MAX + 1,
    ensures
        fw(a, p[0], p.last(), k),
    decreases k, p.len(),
{
    if p.len() == 2 {
        assert(edge_at(a, p, 0));
        lemma_edge_to_fw(a, p[0], p[1], k);
    } else if k == 0 {
        assert(p[1] < 0);
    } else {
        let m = (k - 1) as usize;
        if exists|q: int| 0 < q < p.len() - 1 && p[q] == m {
            let q = choose|q: int| 0 < q < p.len() - 1 && p[q] == m;
            let p1 = p.subrange(0, q + 1);
            let p2 = p.subrange(q, p.len() as int);
            assert forall|r: int| 0 <= r < p1.len() - 1 implies #[trigger] edge_at(a, p1, r) by {
                assert(edge_at(a, p, r));
            }
            assert forall|r: int| 0 <= r < p2.len() - 1 implies #[trigger] edge_at(a, p2, r) by {
                assert(edge_at(a, p, r + q));
            }
            assert forall|r: int| 0 < r < p1.len() - 1 implies #[trigger] p1[r] < k by {
                assert(p[r] < k);
            }
            assert forall|r: int| 0 < r < p2.len() - 1 implies #[trigger] p2[r] < k by {
                assert(p[r + q] < k);
            }
            lemma_path_to_fw(a, p1, k);
            lemma_path_to_fw(a, p2, k);
            lemma_fw_stable(a, p[0], k);
            lemma_fw_stable(a, p.last(), k);
        } else {
            assert forall|r: int| 0 < r < p.len() - 1 implies #[trigger] p[r] < k - 1 by {
                assert(p[r] < k);
            }
            lemma_path_to_fw(a, p, (k - 1) as nat);
        }
    }
}

/// An edge is reachable at every stage.
pub proof fn lemma_edge_to_fw(a: ArenaView, x: usize, y: usize, k: nat)
    requires
        edge(a, x, y),
    ensures
        fw(a, x, y, k),
    decreases k,
{
    if k > 0 {
        lemma_edge_to_fw(a, x, y, (k - 1) as nat);
    }
}

/// Stage `k` reachability gives a path with interior below `k`.
pub proof fn lemma_fw_to_path(a: ArenaView, x: usize, y: usize, k: nat) -> (p: Seq<usize>)
    requires
        fw(a, x, y, k),
    ensures
        is_path(a, p),
        p[0] == x,
        p.last() == y,
        interior_below(p, k as int),
    decreases k,
{
    if k == 0 {
        let p = seq![x, y];
        assert(edge_at(a, p, 0));
        p
    } else {
        let m = (k - 1) as usize;
        if fw(a, x, y, (k - 1) as nat) {
            lemma_fw_to_path(a, x, y, (k - 1) as nat)
        } else {
            let p1 = lemma_fw_to_path(a, x, m, (k - 1) as nat);
            let p2 = lemma_fw_to_path(a, m, y, (k - 1) as nat);
            let p = p1 + p2.drop_first();
            assert forall|r: int| 0 <= r < p.len() - 1 implies #[trigger] edge_at(a, p, r) by {
                if r < p1.len() - 1 {
                    assert(edge_at(a, p1, r));
                } else {
                    assert(edge_at(a, p2, r - p1.len() + 1));
                }
            }
            assert forall|r: int| 0 < r < p.len() - 1 implies #[trigger] p[r] < k by {
                if r < p1.len() - 1 {
                    assert(p1[r] < k - 1);
                } else if r == p1.len() - 1 {
                } else {
                    assert(p2[r - p1.len() + 1] < k - 1);
                }
            }
            p
        }
    }
}

/// The last stage of Floyd-Warshall is exactly path reachability: the
/// computed closure holds `(x, y)` iff `y` is reachable from `x`.
pub proof fn lemma_closure_is_reachability(a: ArenaView, x: usize, y: usize)
    requires
        a.events.len() <= usize::MAX,
    ensures
        fw(a, x, y, a.events.len()) <==> reaches(a, x, y),
{
    if fw(a, x, y, a.events.len()) {
        let p = lemma_fw_to_path(a, x, y, a.events.len());
    }
    if reaches(a, x, y) {
        let p = choose|p: Seq<usize>| #[trigger] is_path(a, p) && p[0] == x && p.last() == y;
        assert forall|r: int| 0 < r < p.len() - 1 implies #[trigger] p[r] < a.events.len() by {
            assert(edge_at(a, p, r));
        }
        lemma_path_to_fw(a, p, a.events.len());
    }
}

/// The matrix `m` is `n` rows of `n` cells.
pub open spec fn square(m: Seq<Vec<bool>>, n: int) -> bool {
    &&& m.len() == n
    &&& forall|i: int| 0 <= i < n ==> (#[trigger] m[i])@.len() == n
}

fn set_cell(m: &mut Vec<Vec<bool>>, i: usize, j: usize, v: bool)
    requires
        i < old(m)@.len(),
        j < old(m)@[i as int]@.len(),
    ensures
        final(m)@.len() == old(m)@.len(),
        forall|r: int| 0 <= r < old(m)@.len() && r != i ==> #[trigger] final(m)@[r] == old(m)@[r],
        final(m)@[i as int]@ == old(m)@[i as int]@.update(j as int, v),
{
    m[i].set(j, v);
}

/// The `n` by `n` matrix with every cell false.
fn false_matrix(n: usize) -> (m: Vec<Vec<bool>>)
    ensures
        square(m@, n as int),
        forall|i: int, j: int| 0 <= i < n && 0 <= j < n ==> !(#[trigger] m@[i]@[j]),
{
    let mut m: Vec<Vec<bool>> = Vec::new();
    let mut i: usize = 0;
    while i < n
        invariant
            i <= n,
            m@.len() == i,
            forall|r: int| 0 <= r < i ==> (#[trigger] m@[r])@.len() == n,
            forall|r: int, j: int| 0 <= r < i && 0 <= j < n ==> !(#[trigger] m@[r]@[j]),
        decreases n - i,
    {
        let mut row: Vec<bool> = Vec::new();
        let mut j: usize = 0;
        while j < n
            invariant
                j <= n,
                row@.len() == j,
                forall|c: int| 0 <= c < j ==> !(#[trigger] row@[c]),
            decreases n - j,
        {
            row.push(false);
            j = j + 1;
        }
        m.push(row);
        i = i + 1;
    }
    m
}

/// The transitive closure of the enabling edges between events of the
/// arena: cell `(x, y)` holds iff `y` is reachable from `x`.
pub(crate) fn causal_closure(arena: &Arena) -> (m: Vec<Vec<bool>>)
    ensures
        square(m@, arena@.events.len() as int),
        forall|x: int, y: int|
            0 <= x < arena@.events.len() && 0 <= y < arena@.events.len() ==> (#[trigger] m@[x]@[y] <==> reaches(arena@, x as usize, y as usize)),
{
    let ghost a = arena@;
    let n = arena.events.len();
    let enabling = &arena.enabling;
    let mut m = false_matrix(n);
    let mut e: usize = 0;
    while e < enabling.len()
        invariant
            e <= enabling.len(),
            n == a.events.len(),
            enabling@ == a.enabling,
            square(m@, n as int),
            forall|x: int, y: int|
                0 <= x < n && 0 <= y < n ==> (#[trigger] m@[x]@[y] <==> enabling@.take(e as int).contains((x as usize, y as usize))),
        decreases enabling.len() - e,
    {
        let (s, t) = enabling[e];
        let ghost before = m@;
        proof {
            crate::strategy::lemma_take_push_contains(enabling@, e as int);
        }
        if s < n && t < n {
            set_cell(&mut m, s, t, true);
        }
        proof {
            assert forall|x: int| 0 <= x < n implies (#[trigger] m@[x])@.len() == n by {
                if x != s {
                    assert(m@[x] == before[x]);
                }
            }
            assert forall|x: int, y: int| 0 <= x < n && 0 <= y < n implies (#[trigger] m@[x]@[y] <==> enabling@.take(e + 1).contains((x as usize, y as usize))) by {
                if x != s {
                    assert(m@[x] == before[x]);
                }
            }
        }
        e = e + 1;
    }
    assert(enabling@.take(e as int) =~= enabling@);
    let mut k: usize = 0;
    while k < n
        invariant
            k <= n,
            n == a.events.len(),
            square(m@, n as int),
            forall|x: int, y: int|
                0 <= x < n && 0 <= y < n ==> (#[trigger] m@[x]@[y] == fw(a, x as usize, y as usize, k as nat)),
        decreases n - k,
    {
        let mut i: usize = 0;
        while i < n
            invariant
                k < n,
                i <= n,
                n == a.events.len(),
                square(m@, n as int),
                forall|x: int, y: int|
                    0 <= x < n && 0 <= y < n ==> (#[trigger] m@[x]@[y] == if x < i {
                        fw(a, x as usize, y as usize, (k + 1) as nat)
                    } else {
                        fw(a, x as usize, y as usize, k as nat)
                    }),
            decreases n - i,
        {
            let mut j: usize = 0;
            while j < n
                invariant
                    k < n,
                    i < n,
                    j <= n,
                    n == a.events.len(),
                    square(m@, n as int),
                    forall|x: int, y: int|
                        0 <= x < n && 0 <= y < n ==> (#[trigger] m@[x]@[y] == if x < i || (x == i && y < j) {
                            fw(a, x as usize, y as usize, (k + 1) as nat)
                        } else {
                            fw(a, x as usize, y as usize, k as nat)
                        }),
                decreases n - j,
            {
                proof {
                    lemma_fw_stable(a, i, (k + 1) as nat);
                    lemma_fw_stable(a, j, (k + 1) as nat);
                }
                let through = m[i][k] && m[k][j];
                let ghost before = m@;
                if through {
                    set_cell(&mut m, i, j, true);
                }
                proof {
                    assert forall|x: int| 0 <= x < n implies (#[trigger] m@[x])@.len() == n by {
                        if x != i {
                            assert(m@[x] == before[x]);
                        }
                    }
                    assert forall|x: int, y: int| 0 <= x < n && 0 <= y < n implies (#[trigger] m@[x]@[y] == if x < i || (x == i && y < j + 1) {
                            fw(a, x as usize, y as usize, (k + 1) as nat)
                        } else {
                            fw(a, x as usize, y as usize, k as nat)
                        }) by {
                        if x != i {
                            assert(m@[x] == before[x]);
                        }
                    }
                }
                j = j + 1;
            }
            i = i + 1;
        }
        k = k + 1;
    }
    proof {
        assert forall|x: int, y: int| 0 <= x < n && 0 <= y < n implies (#[trigger] m@[x]@[y] <==> reaches(a, x as usize, y as usize)) by {
            lemma_closure_is_reachability(a, x as usize, y as usize);
        }
    }
    m
}

} // verus!
