//! Path search over the grid contracts: breadth-first search over the
//! traversable-exit relation.  The search succeeds exactly when the goal is
//! reachable from the start.

use vstd::prelude::*;
use vstd::pervasive::VecAdditionalExecFns;

use crate::map::GameMap;

verus! {

/// A walk over grid indices: every element is in range and each step after
/// the first is a valid exit of the previous cell.
pub open spec fn valid_path(m: GameMap, p: Seq<int>) -> bool {
    &&& 1 <= p.len()
    &&& forall|k: int| 0 <= k < p.len() ==> 0 <= #[trigger] p[k] < m.spec_size()
    &&& forall|k: int| 1 <= k < p.len() ==> m.spec_valid_exit(p[k - 1], #[trigger] p[k])
}

/// Some walk joins `s` to `g`.
pub open spec fn reachable(m: GameMap, s: int, g: int) -> bool {
    exists|p: Seq<int>| #[trigger] valid_path(m, p) && p[0] == s && p[p.len() - 1] == g
}

/// Every cell is reachable from itself.
pub proof fn lemma_reach_refl(m: GameMap, s: int)
    requires
        0 <= s < m.spec_size(),
    ensures
        reachable(m, s, s),
{
    let p = seq![s];
    assert(valid_path(m, p) && p[0] == s && p[p.len() - 1] == s);
}

/// Reachability extends along a valid exit.
pub proof fn lemma_reach_step(m: GameMap, s: int, a: int, b: int)
    requires
        m.wf(),
        0 <= a < m.spec_size(),
        reachable(m, s, a),
        m.spec_valid_exit(a, b),
    ensures
        reachable(m, s, b),
{
    m.lemma_valid_exit_bounds(a, b);
    let p = choose|p: Seq<int>| #[trigger] valid_path(m, p) && p[0] == s && p[p.len() - 1] == a;
    let q = p.push(b);
    assert forall|k: int| 1 <= k < q.len() implies m.spec_valid_exit(q[k - 1], #[trigger] q[k]) by {
        if k < q.len() - 1 {
            assert(q[k - 1] == p[k - 1] && q[k] == p[k]);
        } else {
            assert(q[k - 1] == a && q[k] == b);
        }
    };
    assert(valid_path(m, q) && q[0] == s && q[q.len() - 1] == b);
}

/// If a set of cells contains the start of a walk and is closed under valid
/// exits, it contains the walk's end.
pub proof fn lemma_path_in_closed(m: GameMap, visited: Seq<bool>, p: Seq<int>)
    requires
        visited.len() == m.spec_size(),
        valid_path(m, p),
        visited[p[0]],
        forall|i: int, j: int|
            0 <= i < m.spec_size() && #[trigger] visited[i] && #[trigger] m.spec_valid_exit(i, j)
                ==> 0 <= j < m.spec_size() && visited[j],
    ensures
        visited[p[p.len() - 1]],
    decreases p.len(),
{
    if p.len() > 1 {
        let q = p.subrange(0, p.len() - 1);
        assert forall|k: int| 1 <= k < q.len() implies m.spec_valid_exit(
            q[k - 1],
            #[trigger] q[k],
        ) by {
            assert(q[k - 1] == p[k - 1] && q[k] == p[k]);
        };
        assert(valid_path(m, q));
        lemma_path_in_closed(m, visited, q);
        assert(visited[p[p.len() - 2]]);
        assert(m.spec_valid_exit(p[p.len() - 2], p[p.len() - 1]));
    }
}

/// Number of `true` entries in a boolean sequence.
pub open spec fn count_true(s: Seq<bool>) -> int
    decreases s.len(),
{
    if s.len() == 0 {
        0
    } else {
        count_true(s.drop_last()) + if s.last() {
            1int
        } else {
            0int
        }
    }
}

pub proof fn lemma_count_true_bounds(s: Seq<bool>)
    ensures
        0 <= count_true(s) <= s.len(),
    decreases s.len(),
{
    if s.len() > 0 {
        lemma_count_true_bounds(s.drop_last());
    }
}

/// A sequence with a `false` entry has fewer `true`s than elements.
pub proof fn lemma_count_true_lt(s: Seq<bool>, i: int)
    requires
        0 <= i < s.len(),
        !s[i],
    ensures
        count_true(s) < s.len(),
    decreases s.len(),
{
    if i == s.len() - 1 {
        lemma_count_true_bounds(s.drop_last());
    } else {
        lemma_count_true_lt(s.drop_last(), i);
    }
}

/// Setting a `false` entry to `true` raises the count by one.
pub proof fn lemma_count_true_update(s: Seq<bool>, i: int)
    requires
        0 <= i < s.len(),
        !s[i],
    ensures
        count_true(s.update(i, true)) == count_true(s) + 1,
    decreases s.len(),
{
    let t = s.update(i, true);
    if i == s.len() - 1 {
        assert(t.drop_last() =~= s.drop_last());
    } else {
        assert(t.drop_last() =~= s.drop_last().update(i, true));
        lemma_count_true_update(s.drop_last(), i);
    }
}

/// The standing facts of the search: lengths, membership, reachability of
/// everything visited, and the parent links that rebuild a path.
#[verifier::opaque]
pub open spec fn bfs_inv(
    m: GameMap,
    visited: Seq<bool>,
    parent: Seq<usize>,
    depth: Seq<usize>,
    queue: Seq<usize>,
    start: int,
) -> bool {
    &&& visited.len() == m.spec_size()
    &&& parent.len() == m.spec_size()
    &&& depth.len() == m.spec_size()
    &&& 0 <= start < m.spec_size()
    &&& visited[start]
    &&& depth[start] == 0
    &&& forall|k: int|
        0 <= k < queue.len() ==> (#[trigger] queue[k] as int) < m.spec_size() && visited[queue[k] as int]
    &&& forall|i: int|
        0 <= i < m.spec_size() && #[trigger] visited[i] ==> reachable(m, start, i)
    &&& forall|i: int|
        0 <= i < m.spec_size() && #[trigger] visited[i] ==> exists|k: int|
            0 <= k < queue.len() && queue[k] as int == i
    &&& forall|i: int|
        0 <= i < m.spec_size() && #[trigger] visited[i] && i != start ==> (parent[i] as int)
            < m.spec_size() && visited[parent[i] as int] && m.spec_valid_exit(
            parent[i] as int,
            i,
        ) && (depth[parent[i] as int] as int) < depth[i] as int
    &&& forall|i: int|
        0 <= i < m.spec_size() && #[trigger] visited[i] ==> (depth[i] as int) < count_true(
            visited,
        )
}

/// Visits a single exit `e` of `cur`: if unvisited, marks it, records its
/// parent and depth, and appends it to the queue.
#[verifier::rlimit(100)]
fn visit_one(
    m: &GameMap,
    cur: usize,
    e: usize,
    visited: &mut Vec<bool>,
    parent: &mut Vec<usize>,
    depth: &mut Vec<usize>,
    queue: &mut Vec<usize>,
    Ghost(start): Ghost<int>,
)
    requires
        m.wf(),
        (cur as int) < m.spec_size(),
        bfs_inv(*m, old(visited)@, old(parent)@, old(depth)@, old(queue)@, start),
        old(visited)@[cur as int],
        m.spec_valid_exit(cur as int, e as int),
    ensures
        bfs_inv(*m, final(visited)@, final(parent)@, final(depth)@, final(queue)@, start),
        final(visited)@.len() == old(visited)@.len(),
        forall|i: int| 0 <= i < m.spec_size() && old(visited)@[i] ==> final(visited)@[i],
        final(visited)@[e as int],
        old(queue)@.len() <= final(queue)@.len(),
        forall|k: int| 0 <= k < old(queue)@.len() ==> final(queue)@[k] == old(queue)@[k],
        final(queue)@.len() - old(queue)@.len() == count_true(final(visited)@) - count_true(
            old(visited)@,
        ),
{
    proof {
        reveal(bfs_inv);
        m.lemma_valid_exit_bounds(cur as int, e as int);
    }
    if !visited[e] {
        let ghost v0 = visited@;
        let ghost q0 = queue@;
        proof {
            lemma_count_true_update(visited@, e as int);
            lemma_count_true_lt(visited@, e as int);
            lemma_count_true_bounds(visited@);
            lemma_reach_step(*m, start, cur as int, e as int);
            m.lemma_size_bound();
        }
        visited.set(e, true);
        parent.set(e, cur);
        let dc = depth[cur];
        depth.set(e, dc + 1);
        queue.push(e);
        proof {
            assert forall|i: int|
                0 <= i < m.spec_size() && #[trigger] visited@[i] implies exists|k: int|
                0 <= k < queue@.len() && queue@[k] as int == i by {
                if i == e as int {
                    assert(queue@[q0.len() as int] as int == i);
                } else {
                    assert(v0[i]);
                    let k = choose|k: int| 0 <= k < q0.len() && q0[k] as int == i;
                    assert(queue@[k] as int == i);
                }
            };
        }
    }
}

/// Processes one dequeued cell: marks every unvisited exit, recording its
/// parent and depth and appending it to the queue.
#[verifier::rlimit(100)]
fn visit_exits(
    m: &GameMap,
    cur: usize,
    visited: &mut Vec<bool>,
    parent: &mut Vec<usize>,
    depth: &mut Vec<usize>,
    queue: &mut Vec<usize>,
    Ghost(start): Ghost<int>,
)
    requires
        m.wf(),
        (cur as int) < m.spec_size(),
        bfs_inv(*m, old(visited)@, old(parent)@, old(depth)@, old(queue)@, start),
        old(visited)@[cur as int],
    ensures
        bfs_inv(*m, final(visited)@, final(parent)@, final(depth)@, final(queue)@, start),
        forall|i: int| 0 <= i < m.spec_size() && old(visited)@[i] ==> final(visited)@[i],
        forall|j: int|
            #![trigger m.spec_valid_exit(cur as int, j)]
            m.spec_valid_exit(cur as int, j) ==> 0 <= j < m.spec_size() && final(visited)@[j],
        old(queue)@.len() <= final(queue)@.len(),
        forall|k: int| 0 <= k < old(queue)@.len() ==> final(queue)@[k] == old(queue)@[k],
        final(queue)@.len() - old(queue)@.len() == count_true(final(visited)@) - count_true(
            old(visited)@,
        ),
{
    let exits = m.get_available_exits(cur);
    let mut j: usize = 0;
    while j < exits.len()
        invariant
            m.wf(),
            (cur as int) < m.spec_size(),
            visited@[cur as int],
            bfs_inv(*m, visited@, parent@, depth@, queue@, start),
            j <= exits@.len(),
            forall|u: usize| exits@.contains(u) <==> m.spec_valid_exit(cur as int, u as int),
            forall|jj: int| 0 <= jj < j ==> visited@[(#[trigger] exits@[jj]) as int],
            forall|i: int| 0 <= i < m.spec_size() && old(visited)@[i] ==> visited@[i],
            visited@.len() == old(visited)@.len(),
            old(queue)@.len() <= queue@.len(),
            forall|k: int| 0 <= k < old(queue)@.len() ==> queue@[k] == old(queue)@[k],
            queue@.len() - old(queue)@.len() == count_true(visited@) - count_true(
                old(visited)@,
            ),
        decreases exits@.len() - j,
    {
        let e = exits[j];
        proof {
            assert(exits@.contains(exits@[j as int]));
        }
        let ghost vmid = visited@;
        let ghost qmid = queue@;
        visit_one(m, cur, e, visited, parent, depth, queue, Ghost(start));
        proof {
            assert(e == exits@[j as int]);
            assert(visited@[e as int]);
            assert(vmid.len() == visited@.len());
            assert forall|jj: int| 0 <= jj < j + 1 implies visited@[(#[trigger] exits@[jj]) as int]
            by {
                if jj < j {
                    assert(vmid[exits@[jj] as int]);
                    assert(exits@.contains(exits@[jj]));
                    assert(m.spec_valid_exit(cur as int, exits@[jj] as int));
                    m.lemma_valid_exit_bounds(cur as int, exits@[jj] as int);
                    assert(0 <= (exits@[jj] as int) < m.spec_size());
                    assert(visited@[exits@[jj] as int]);
                }
            };
            assert forall|k: int| 0 <= k < old(queue)@.len() implies queue@[k] == old(queue)@[k]
            by {
                assert(queue@[k] == qmid[k]);
            };
        }
        j = j + 1;
    }
    proof {
        assert forall|jx: int|
            #![trigger m.spec_valid_exit(cur as int, jx)]
            m.spec_valid_exit(cur as int, jx) implies 0 <= jx < m.spec_size() && visited@[jx] by {
            m.lemma_valid_exit_bounds(cur as int, jx);
            m.lemma_size_bound();
            let u = jx as usize;
            assert(u as int == jx);
            assert(exits@.contains(u));
            let jj = choose|jj: int| 0 <= jj < exits@.len() && exits@[jj] == u;
            assert(visited@[exits@[jj] as int]);
        };
    }
}

/// Walks the parent links back from the goal and reverses the result into a
/// walk from `start` to `goal`.
fn rebuild_path(
    m: &GameMap,
    parent: &Vec<usize>,
    depth: &Vec<usize>,
    visited: &Vec<bool>,
    start: usize,
    goal: usize,
    Ghost(queue): Ghost<Seq<usize>>,
) -> (p: Vec<usize>)
    requires
        m.wf(),
        start < m.spec_size(),
        goal < m.spec_size(),
        bfs_inv(*m, visited@, parent@, depth@, queue, start as int),
        visited@[goal as int],
    ensures
        p@.len() >= 1,
        p@[0] == start,
        p@[p@.len() - 1] == goal,
        forall|k: int| 0 <= k < p@.len() ==> (#[trigger] p@[k] as int) < m.spec_size(),
        forall|k: int|
            1 <= k < p@.len() ==> m.spec_valid_exit(p@[k - 1] as int, #[trigger] p@[k] as int),
        start != goal ==> p@.len() >= 2,
{
    proof {
        reveal(bfs_inv);
    }
    let mut rev: Vec<usize> = Vec::new();
    rev.push(goal);
    let mut cur = goal;
    while cur != start
        invariant
            m.wf(),
            start < m.spec_size(),
            goal < m.spec_size(),
            bfs_inv(*m, visited@, parent@, depth@, queue, start as int),
            (cur as int) < m.spec_size(),
            visited@[cur as int],
            rev@.len() >= 1,
            rev@[0] == goal,
            rev@[rev@.len() - 1] == cur,
            forall|k: int| 0 <= k < rev@.len() ==> (#[trigger] rev@[k] as int) < m.spec_size(),
            forall|k: int|
                0 <= k < rev@.len() - 1 ==> m.spec_valid_exit(
                    rev@[k + 1] as int,
                    #[trigger] rev@[k] as int,
                ),
        decreases depth@[cur as int],
    {
        proof {
            reveal(bfs_inv);
        }
        let pr = parent[cur];
        rev.push(pr);
        cur = pr;
    }

    let mut path: Vec<usize> = Vec::new();
    let mut k = rev.len();
    while k > 0
        invariant
            k <= rev@.len(),
            path@.len() == rev@.len() - k,
            forall|i: int|
                0 <= i < path@.len() ==> #[trigger] path@[i] == rev@[rev@.len() - 1 - i],
        decreases k,
    {
        k = k - 1;
        path.push(rev[k]);
    }
    proof {
        assert(path@[0] == rev@[rev@.len() - 1]);
        assert(path@[path@.len() - 1] == rev@[0]);
        assert forall|kk: int| 1 <= kk < path@.len() implies m.spec_valid_exit(
            path@[kk - 1] as int,
            #[trigger] path@[kk] as int,
        ) by {
            let n = rev@.len() as int;
            assert(path@[kk - 1] == rev@[n - kk]);
            assert(path@[kk] == rev@[n - 1 - kk]);
            assert(m.spec_valid_exit(rev@[(n - 1 - kk) + 1] as int, rev@[n - 1 - kk] as int));
        };
    }
    path
}

/// After processing the cell at position `head_before`, the processed
/// prefix of the queue is one longer and still closed under valid exits.
proof fn lemma_closure_extend(
    m: GameMap,
    q_before: Seq<usize>,
    v_before: Seq<bool>,
    q_after: Seq<usize>,
    v_after: Seq<bool>,
    head_before: int,
    cur: usize,
    goal: usize,
)
    requires
        m.wf(),
        0 <= head_before < q_before.len(),
        q_before[head_before] == cur,
        cur != goal,
        v_before.len() == m.spec_size(),
        v_after.len() == m.spec_size(),
        q_before.len() <= q_after.len(),
        forall|k: int| 0 <= k < q_before.len() ==> #[trigger] q_after[k] == q_before[k],
        forall|i: int| 0 <= i < m.spec_size() && #[trigger] v_before[i] ==> v_after[i],
        forall|j: int|
            #![trigger m.spec_valid_exit(cur as int, j)]
            m.spec_valid_exit(cur as int, j) ==> 0 <= j < m.spec_size() && v_after[j],
        forall|k: int, j: int|
            #![trigger m.spec_valid_exit(q_before[k] as int, j)]
            0 <= k < head_before && m.spec_valid_exit(q_before[k] as int, j) ==> 0 <= j
                < m.spec_size() && v_before[j],
        forall|k: int| 0 <= k < head_before ==> (#[trigger] q_before[k]) != goal,
    ensures
        forall|k: int, j: int|
            #![trigger m.spec_valid_exit(q_after[k] as int, j)]
            0 <= k < head_before + 1 && m.spec_valid_exit(q_after[k] as int, j) ==> 0 <= j
                < m.spec_size() && v_after[j],
        forall|k: int| 0 <= k < head_before + 1 ==> (#[trigger] q_after[k]) != goal,
{
    assert forall|k: int, j: int|
        #![trigger m.spec_valid_exit(q_after[k] as int, j)]
        0 <= k < head_before + 1 && m.spec_valid_exit(q_after[k] as int, j) implies 0 <= j
        < m.spec_size() && v_after[j] by {
        assert(q_after[k] == q_before[k]);
        if k < head_before {
            assert(m.spec_valid_exit(q_before[k] as int, j));
            assert(v_before[j]);
            assert(v_after[j]);
        } else {
            assert(q_before[k] == cur);
            assert(m.spec_valid_exit(cur as int, j));
        }
    };
    assert forall|k: int| 0 <= k < head_before + 1 implies (#[trigger] q_after[k]) != goal by {
        assert(q_after[k] == q_before[k]);
        if k < head_before {
            assert(q_before[k] != goal);
        }
    };
}

/// Runs the search loop to exhaustion or until the goal is dequeued.
/// Afterwards the visited set still satisfies the standing facts, and a
/// negative answer means the goal is unreachable.
#[verifier::rlimit(100)]
fn bfs_search(
    m: &GameMap,
    visited: &mut Vec<bool>,
    parent: &mut Vec<usize>,
    depth: &mut Vec<usize>,
    queue: &mut Vec<usize>,
    start: usize,
    goal: usize,
) -> (found: bool)
    requires
        m.wf(),
        start < m.spec_size(),
        goal < m.spec_size(),
        bfs_inv(*m, old(visited)@, old(parent)@, old(depth)@, old(queue)@, start as int),
        0 <= count_true(old(visited)@) <= m.spec_size(),
    ensures
        bfs_inv(*m, final(visited)@, final(parent)@, final(depth)@, final(queue)@, start as int),
        found ==> final(visited)@[goal as int],
        found ==> reachable(*m, start as int, goal as int),
        !found ==> !reachable(*m, start as int, goal as int),
{
    proof {
        m.lemma_size_bound();
    }
    let ghost size = m.spec_size();
    let mut head: usize = 0;
    let mut found = false;
    while head < queue.len()
        invariant_except_break
            m.wf(),
            start < m.spec_size(),
            goal < m.spec_size(),
            size == m.spec_size(),
            bfs_inv(*m, visited@, parent@, depth@, queue@, start as int),
            0 <= count_true(visited@) <= size,
            head <= queue@.len(),
            !found,
            forall|k: int, j: int|
                #![trigger m.spec_valid_exit(queue@[k] as int, j)]
                0 <= k < head && m.spec_valid_exit(queue@[k] as int, j) ==> 0 <= j
                    < m.spec_size() && visited@[j],
            forall|k: int| 0 <= k < head ==> (#[trigger] queue@[k]) != goal,
        ensures
            m.wf(),
            size == m.spec_size(),
            bfs_inv(*m, visited@, parent@, depth@, queue@, start as int),
            found ==> visited@[goal as int],
            !found ==> head == queue@.len(),
            !found ==> forall|k: int, j: int|
                #![trigger m.spec_valid_exit(queue@[k] as int, j)]
                0 <= k < head && m.spec_valid_exit(queue@[k] as int, j) ==> 0 <= j
                    < m.spec_size() && visited@[j],
            !found ==> forall|k: int| 0 <= k < head ==> (#[trigger] queue@[k]) != goal,
        decreases size - count_true(visited@), queue@.len() - head,
    {
        proof {
            reveal(bfs_inv);
        }
        let cur = queue[head];
        if cur == goal {
            found = true;
            break ;
        }
        let ghost q_before = queue@;
        let ghost v_before = visited@;
        let ghost head_before = head as int;
        head = head + 1;
        visit_exits(m, cur, visited, parent, depth, queue, Ghost(start as int));
        proof {
            lemma_count_true_bounds(visited@);
            lemma_closure_extend(
                *m,
                q_before,
                v_before,
                queue@,
                visited@,
                head_before,
                cur,
                goal,
            );
        }
    }
    proof {
        reveal(bfs_inv);
        if found {
            assert(reachable(*m, start as int, goal as int));
        }
        if !found {
            assert(!visited@[goal as int]) by {
                if visited@[goal as int] {
                    let k = choose|k: int|
                        0 <= k < queue@.len() && queue@[k] as int == goal as int;
                    assert(queue@[k] != goal);
                    assert(false);
                }
            };
            assert(!reachable(*m, start as int, goal as int)) by {
                if reachable(*m, start as int, goal as int) {
                    let p = choose|p: Seq<int>| #[trigger] valid_path(*m, p) && p[0]
                        == start as int && p[p.len() - 1] == goal as int;
                    assert(head == queue@.len());
                    assert forall|i: int, j: int|
                        0 <= i < m.spec_size() && #[trigger] visited@[i]
                            && #[trigger] m.spec_valid_exit(i, j) implies 0 <= j < m.spec_size()
                        && visited@[j] by {
                        let k = choose|k: int| 0 <= k < queue@.len() && queue@[k] as int == i;
                        assert(0 <= k < head);
                        assert(m.spec_valid_exit(queue@[k] as int, j));
                        assert(0 <= j < m.spec_size() && visited@[j]);
                    };
                    lemma_path_in_closed(*m, visited@, p);
                    assert(false);
                }
            };
        }
    }
    found
}

/// Breadth-first search from `start` to `goal` over the valid-exit
/// relation.  Returns a walk from `start` to `goal` when one exists, and
/// `None` exactly when the goal is unreachable.
#[verifier::rlimit(100)]
pub fn find_path(m: &GameMap, start: usize, goal: usize) -> (r: Option<Vec<usize>>)
    requires
        m.wf(),
        start < m.spec_size(),
        goal < m.spec_size(),
    ensures
        r.is_some() <==> reachable(*m, start as int, goal as int),
        match r {
            Some(p) => {
                &&& p@.len() >= 1
                &&& p@[0] == start
                &&& p@[p@.len() - 1] == goal
                &&& forall|k: int| 0 <= k < p@.len() ==> (#[trigger] p@[k] as int) < m.spec_size()
                &&& forall|k: int|
                    1 <= k < p@.len() ==> m.spec_valid_exit(p@[k - 1] as int, #[trigger] p@[k] as int)
                &&& (start != goal ==> p@.len() >= 2)
            },
            None => true,
        },
{
    proof {
        m.lemma_size_bound();
    }
    let size = (m.width as usize) * (m.height as usize);
    let mut visited: Vec<bool> = crate::mapgen::fill(size, false);
    let mut parent: Vec<usize> = crate::mapgen::fill(size, 0);
    let mut depth: Vec<usize> = crate::mapgen::fill(size, 0);
    let mut queue: Vec<usize> = Vec::new();

    visited.set(start, true);
    parent.set(start, start);
    queue.push(start);
    proof {
        reveal(bfs_inv);
        lemma_reach_refl(*m, start as int);
        lemma_count_true_update(Seq::new(size as nat, |i: int| false), start as int);
        assert(count_true(visited@) == 1) by {
            assert(visited@ =~= Seq::new(size as nat, |i: int| false).update(start as int, true));
            assert(count_true(Seq::new(size as nat, |i: int| false)) == 0) by {
                lemma_count_all_false(Seq::new(size as nat, |i: int| false));
            };
        };
        assert(queue@[0] == start);
        assert forall|i: int|
            0 <= i < m.spec_size() && #[trigger] visited@[i] implies exists|k: int|
            0 <= k < queue@.len() && queue@[k] as int == i by {
            if i == start as int {
                assert(queue@[0] as int == i);
            } else {
                assert(!visited@[i]);
            }
        };
        assert forall|i: int| 0 <= i < m.spec_size() && #[trigger] visited@[i] implies reachable(
            *m,
            start as int,
            i,
        ) by {
            if i != start as int {
                assert(!visited@[i]);
            }
        };
        lemma_count_true_bounds(visited@);
    }

    let found = bfs_search(m, &mut visited, &mut parent, &mut depth, &mut queue, start, goal);
    if !found {
        return None;
    }
    let path = rebuild_path(m, &parent, &depth, &visited, start, goal, Ghost(queue@));
    Some(path)
}

/// An all-false sequence has no `true` entries.
pub proof fn lemma_count_all_false(s: Seq<bool>)
    requires
        forall|i: int| 0 <= i < s.len() ==> !s[i],
    ensures
        count_true(s) == 0,
    decreases s.len(),
{
    if s.len() > 0 {
        lemma_count_all_false(s.drop_last());
    }
}

} // verus!
