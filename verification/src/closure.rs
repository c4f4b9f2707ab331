//! What can be reached in a directed graph: the least set of nodes that is
//! closed under the edges, computed with a worklist.

use vstd::prelude::*;

verus! {

/// For each node the set of the targets of its edges.
pub open spec fn adjacency(edges: Seq<Vec<u32>>) -> Seq<Set<u32>> {
    Seq::new(edges.len(), |i: int| edges[i]@.to_set())
}

/// The nodes whose flag is set.
pub open spec fn flagged(flags: Seq<bool>) -> Set<u32> {
    Set::new(|y: u32| y < flags.len() && flags[y as int])
}

/// Whether `x` holds every allowed node to which an edge leads from a seed
/// or from a node of `x`.
pub open spec fn closed_under(
    edges: Seq<Set<u32>>,
    seeds: Set<u32>,
    allowed: Set<u32>,
    x: Set<u32>,
) -> bool {
    forall|a: u32, y: u32|
        (seeds.contains(a) || x.contains(a)) && a < edges.len() && #[trigger] edges[a as int].contains(
            y,
        ) && allowed.contains(y) ==> x.contains(y)
}

/// The allowed nodes that can be reached from a seed over one edge or more,
/// through allowed nodes only: the least set that is closed under the edges.
pub open spec fn reached(edges: Seq<Set<u32>>, seeds: Set<u32>, allowed: Set<u32>) -> Set<u32> {
    Set::new(
        |y: u32| forall|x: Set<u32>| #[trigger] closed_under(edges, seeds, allowed, x) ==> x.contains(y),
    )
}

/// The set of reached nodes is itself closed under the edges.
pub proof fn lemma_reached_closed(edges: Seq<Set<u32>>, seeds: Set<u32>, allowed: Set<u32>)
    ensures
        closed_under(edges, seeds, allowed, reached(edges, seeds, allowed)),
{
    let r = reached(edges, seeds, allowed);
    assert forall|a: u32, y: u32|
        (seeds.contains(a) || r.contains(a)) && a < edges.len() && #[trigger] edges[a as int].contains(
            y,
        ) && allowed.contains(y) implies r.contains(y) by {
        assert forall|x: Set<u32>| #[trigger] closed_under(edges, seeds, allowed, x) implies x.contains(
            y,
        ) by {
            if !seeds.contains(a) {
                assert(x.contains(a));
            }
        }
    }
}

/// The number of flags that are not set.
pub open spec fn unset(flags: Seq<bool>) -> nat
    decreases flags.len(),
{
    if flags.len() == 0 {
        0
    } else {
        unset(flags.drop_last()) + if flags.last() {
            0nat
        } else {
            1nat
        }
    }
}

/// Setting a flag that was not set leaves one flag less that is not set.
pub proof fn lemma_unset_update(flags: Seq<bool>, i: int)
    requires
        0 <= i < flags.len(),
        !flags[i],
    ensures
        unset(flags.update(i, true)) + 1 == unset(flags),
    decreases flags.len(),
{
    if i == flags.len() - 1 {
        assert(flags.update(i, true).drop_last() =~= flags.drop_last());
    } else {
        lemma_unset_update(flags.drop_last(), i);
        assert(flags.update(i, true).drop_last() =~= flags.drop_last().update(i, true));
    }
}

/// Marks the allowed nodes that can be reached from the seeds over one edge
/// or more, through allowed nodes only. A seed that is no node, or a target
/// that is none, counts for nothing.
pub fn close(edges: &Vec<Vec<u32>>, seeds: &Vec<u32>, allowed: &Vec<bool>) -> (marks: Vec<bool>)
    requires
        allowed@.len() == edges@.len(),
    ensures
        marks@.len() == edges@.len(),
        flagged(marks@) == reached(adjacency(edges@), seeds@.to_set(), flagged(allowed@)),
{
    let n = edges.len();
    let ghost adj = adjacency(edges@);
    let ghost seed_set = seeds@.to_set();
    let ghost ok = flagged(allowed@);
    let mut marks: Vec<bool> = vec![false; n];
    let mut work: Vec<u32> = Vec::new();
    let mut s: usize = 0;
    while s < seeds.len()
        invariant
            s <= seeds.len(),
            n == edges@.len(),
            forall|i: int| 0 <= i < work@.len() ==> #[trigger] work@[i] < n && seeds@.contains(work@[i]),
            forall|i: int| 0 <= i < s && seeds@[i] < n ==> work@.contains(#[trigger] seeds@[i]),
        decreases seeds.len() - s,
    {
        let seed = seeds[s];
        if (seed as usize) < n {
            let ghost before = work@;
            work.push(seed);
            proof {
                assert(work@[before.len() as int] == seed);
                assert forall|i: int| 0 <= i < s + 1 && seeds@[i] < n implies work@.contains(
                    #[trigger] seeds@[i],
                ) by {
                    if i < s {
                        let w = choose|w: int| 0 <= w < before.len() && before[w] == seeds@[i];
                        assert(work@[w] == seeds@[i]);
                    }
                }
            }
        }
        s += 1;
    }
    assert(flagged(marks@) =~= Set::<u32>::empty());
    while work.len() > 0
        invariant
            n == edges@.len(),
            allowed@.len() == n,
            marks@.len() == n,
            adj == adjacency(edges@),
            seed_set == seeds@.to_set(),
            ok == flagged(allowed@),
            forall|i: int|
                0 <= i < work@.len() ==> #[trigger] work@[i] < n && (seed_set.contains(work@[i])
                    || marks@[work@[i] as int]),
            forall|y: u32| #[trigger] flagged(marks@).contains(y) ==> reached(adj, seed_set, ok).contains(y),
            forall|a: u32, y: u32|
                (seed_set.contains(a) || flagged(marks@).contains(a)) && a < n && !work@.contains(a)
                    && #[trigger] adj[a as int].contains(y) && ok.contains(y) ==> flagged(
                    marks@,
                ).contains(y),
        decreases unset(marks@), work@.len(),
    {
        let ghost work0 = work@;
        let ghost marks0 = marks@;
        let a = work.pop().unwrap();
        let ghost rest = work@;
        let targets = &edges[a as usize];
        proof {
            assert(work0[work0.len() - 1] == a);
            assert forall|b: u32| b != a && !rest.contains(b) implies !work0.contains(b) by {
                if work0.contains(b) {
                    let w = choose|w: int| 0 <= w < work0.len() && work0[w] == b;
                    assert(rest[w] == b);
                }
            }
            assert forall|i: int| 0 <= i < rest.len() implies #[trigger] rest[i] < n && (
            seed_set.contains(rest[i]) || marks@[rest[i] as int]) by {
                assert(rest[i] == work0[i]);
            }
        }
        let mut j: usize = 0;
        while j < targets.len()
            invariant
                j <= targets.len(),
                n == edges@.len(),
                allowed@.len() == n,
                marks@.len() == n,
                a < n,
                targets@.to_set() == adj[a as int],
                adj == adjacency(edges@),
                seed_set == seeds@.to_set(),
                ok == flagged(allowed@),
                seed_set.contains(a) || flagged(marks@).contains(a),
                forall|i: int|
                    0 <= i < work@.len() ==> #[trigger] work@[i] < n && (seed_set.contains(
                        work@[i],
                    ) || marks@[work@[i] as int]),
                forall|y: u32| #[trigger] flagged(marks@).contains(y) ==> reached(adj, seed_set, ok).contains(y),
                forall|y: u32| flagged(marks0).contains(y) ==> flagged(marks@).contains(y),
                forall|b: u32, y: u32|
                    (seed_set.contains(b) || flagged(marks@).contains(b)) && b < n && b != a
                        && !work@.contains(b) && #[trigger] adj[b as int].contains(y) && ok.contains(
                        y,
                    ) ==> flagged(marks@).contains(y),
                forall|i: int|
                    0 <= i < j && ok.contains(#[trigger] targets@[i]) ==> flagged(marks@).contains(
                        targets@[i],
                    ),
                unset(marks@) < unset(marks0) || (marks@ == marks0 && work@ == rest),
            decreases targets.len() - j,
        {
            let y = targets[j];
            if (y as usize) < n && allowed[y as usize] && !marks[y as usize] {
                let ghost marks1 = marks@;
                let ghost work1 = work@;
                proof {
                    lemma_unset_update(marks@, y as int);
                }
                marks.set(y as usize, true);
                work.push(y);
                proof {
                    assert(work@[work1.len() as int] == y);
                    assert(work@.contains(y));
                    assert forall|z: u32| #[trigger] flagged(marks@).contains(z) implies reached(
                        adj,
                        seed_set,
                        ok,
                    ).contains(z) by {
                        if z == y {
                            lemma_reached_closed(adj, seed_set, ok);
                            assert(targets@.to_set().contains(y));
                            assert(adj[a as int].contains(y));
                        } else {
                            assert(flagged(marks1).contains(z));
                        }
                    }
                    assert forall|y2: u32| flagged(marks0).contains(y2) implies flagged(
                        marks@,
                    ).contains(y2) by {
                        assert(flagged(marks1).contains(y2));
                    }
                    assert forall|b: u32, y2: u32|
                        (seed_set.contains(b) || flagged(marks@).contains(b)) && b < n && b != a
                            && !work@.contains(b) && #[trigger] adj[b as int].contains(y2)
                            && ok.contains(y2) implies flagged(marks@).contains(y2) by {
                        assert(b != y);
                        assert(flagged(marks1).contains(b) || seed_set.contains(b));
                        if work1.contains(b) {
                            let w = choose|w: int| 0 <= w < work1.len() && work1[w] == b;
                            assert(work@[w] == b);
                        }
                        assert(flagged(marks1).contains(y2));
                    }
                    assert forall|i: int|
                        0 <= i < j + 1 && ok.contains(#[trigger] targets@[i]) implies flagged(
                        marks@,
                    ).contains(targets@[i]) by {
                        if i < j {
                            assert(flagged(marks1).contains(targets@[i]));
                        }
                    }
                    assert forall|i: int| 0 <= i < work@.len() implies #[trigger] work@[i] < n && (
                    seed_set.contains(work@[i]) || marks@[work@[i] as int]) by {
                        if i < work1.len() {
                            assert(work@[i] == work1[i]);
                        }
                    }
                }
            } else {
                proof {
                    if ok.contains(y) {
                        assert(flagged(marks@).contains(y));
                    }
                }
            }
            j += 1;
        }
        proof {
            assert forall|b: u32, y: u32|
                (seed_set.contains(b) || flagged(marks@).contains(b)) && b < n && !work@.contains(
                    b,
                ) && #[trigger] adj[b as int].contains(y) && ok.contains(y) implies flagged(
                marks@,
            ).contains(y) by {
                if b == a {
                    assert(targets@.to_set().contains(y));
                    let i = choose|i: int| 0 <= i < targets@.len() && targets@[i] == y;
                    assert(ok.contains(targets@[i]));
                }
            }
        }
    }
    proof {
        let x = flagged(marks@);
        assert(closed_under(adj, seed_set, ok, x)) by {
            assert forall|a: u32, y: u32|
                (seed_set.contains(a) || x.contains(a)) && a < adj.len() && #[trigger] adj[a as int].contains(
                    y,
                ) && ok.contains(y) implies x.contains(y) by {
                assert(!work@.contains(a));
            }
        }
        assert(flagged(marks@) =~= reached(adj, seed_set, ok));
    }
    marks
}

} // verus!
