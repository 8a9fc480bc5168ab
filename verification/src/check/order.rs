//! The order of evaluation: models, seeds, snapshots and analyses are
//! taken in dependency order, so that a node is evaluated only after the
//! nodes it reads.

use vstd::prelude::*;
use crate::manifest::Manifest;
use crate::manifest::ManifestView;

verus! {

/// Whether the node at `i` reads the node at `k`, both being nodes that
/// are evaluated in dependency order.
pub open spec fn depends_on_position(m: ManifestView, i: int, k: int) -> bool {
    &&& 0 <= i < m.nodes.len()
    &&& 0 <= k < m.nodes.len()
    &&& m.nodes[k].is_ordered_kind()
    &&& exists|j: int|
        0 <= j < m.nodes[i].depends_on.len() && m.node_position(
            #[trigger] m.nodes[i].depends_on[j],
        ) == k
}

/// Whether the node at `i` still waits to be placed.
pub open spec fn is_waiting(m: ManifestView, done: Seq<int>, i: int) -> bool {
    0 <= i < m.nodes.len() && m.nodes[i].is_ordered_kind() && !done.contains(i)
}

/// Whether every node that the node at `i` reads is placed.
pub open spec fn is_ready(m: ManifestView, done: Seq<int>, i: int) -> bool {
    forall|k: int| #[trigger] depends_on_position(m, i, k) ==> done.contains(k)
}

/// The least number below `n` for which `pred` holds, or `n`.
pub open spec fn first_where(n: int, pred: spec_fn(int) -> bool) -> int
    decreases n,
{
    if n <= 0 {
        0
    } else if first_where(n - 1, pred) < n - 1 {
        first_where(n - 1, pred)
    } else if pred(n - 1) {
        n - 1
    } else {
        n
    }
}

/// What `first_where` finds satisfies `pred`, and nothing in front of it does.
pub proof fn lemma_first_where(n: int, pred: spec_fn(int) -> bool)
    requires
        0 <= n,
    ensures
        0 <= first_where(n, pred) <= n,
        first_where(n, pred) < n ==> pred(first_where(n, pred)),
        forall|j: int| 0 <= j < first_where(n, pred) ==> !#[trigger] pred(j),
    decreases n,
{
    if n > 0 {
        lemma_first_where(n - 1, pred);
    }
}

/// A number that satisfies `pred`, with none in front of it that does, is
/// what `first_where` finds.
pub proof fn lemma_first_where_is(n: int, pred: spec_fn(int) -> bool, i: int)
    requires
        0 <= i <= n,
        forall|j: int| 0 <= j < i ==> !#[trigger] pred(j),
        i < n ==> pred(i),
    ensures
        first_where(n, pred) == i,
{
    lemma_first_where(n, pred);
    let r = first_where(n, pred);
    if r < i {
        assert(pred(r));
    } else if r > i {
        assert(!pred(i));
    }
}

pub open spec fn waiting_and_ready(m: ManifestView, done: Seq<int>) -> spec_fn(int) -> bool {
    |i: int| is_waiting(m, done, i) && is_ready(m, done, i)
}

pub open spec fn waiting(m: ManifestView, done: Seq<int>) -> spec_fn(int) -> bool {
    |i: int| is_waiting(m, done, i)
}

/// The node to place next: the first waiting node whose dependencies are
/// all placed; where no waiting node is ready, which only a cycle can
/// cause, the first waiting node; none when no node waits.
pub open spec fn next_pick(m: ManifestView, done: Seq<int>) -> Option<int> {
    let n = m.nodes.len() as int;
    if first_where(n, waiting_and_ready(m, done)) < n {
        Some(first_where(n, waiting_and_ready(m, done)))
    } else if first_where(n, waiting(m, done)) < n {
        Some(first_where(n, waiting(m, done)))
    } else {
        None
    }
}

/// The nodes placed after `steps` picks.
pub open spec fn order_after(m: ManifestView, steps: nat) -> Seq<int>
    decreases steps,
{
    if steps == 0 {
        Seq::empty()
    } else {
        let done = order_after(m, (steps - 1) as nat);
        match next_pick(m, done) {
            Some(k) => done.push(k),
            None => done,
        }
    }
}

/// The positions of the nodes in the order of their evaluation.
pub open spec fn dag_positions(m: ManifestView) -> Seq<int> {
    order_after(m, m.nodes.len())
}

/// The ids of the nodes in the order of their evaluation.
pub open spec fn dag_order(m: ManifestView) -> Seq<Seq<char>> {
    Seq::new(dag_positions(m).len(), |p: int| m.nodes[dag_positions(m)[p]].unique_id)
}

/// What holds of the nodes placed after any number of picks: each is a
/// waiting node when it is picked, so none is placed twice; each is ready
/// when it is picked unless no waiting node was; and once a pick finds no
/// node, none waits.
pub open spec fn sound_order(m: ManifestView, order: Seq<int>) -> bool {
    &&& order.no_duplicates()
    &&& forall|p: int|
        0 <= p < order.len() ==> 0 <= #[trigger] order[p] < m.nodes.len()
            && m.nodes[order[p]].is_ordered_kind()
    &&& forall|p: int|
        0 <= p < order.len() ==> is_ready(m, order.take(p), #[trigger] order[p]) || forall|i: int|
            is_waiting(m, order.take(p), i) ==> !is_ready(m, order.take(p), i)
}

/// The nodes placed after any number of picks are in sound order.
pub proof fn lemma_order_after(m: ManifestView, steps: nat)
    ensures
        sound_order(m, order_after(m, steps)),
        order_after(m, steps).len() <= steps,
        order_after(m, steps).len() < steps ==> forall|i: int|
            !is_waiting(m, order_after(m, steps), i),
    decreases steps,
{
    if steps > 0 {
        let done = order_after(m, (steps - 1) as nat);
        lemma_order_after(m, (steps - 1) as nat);
        let n = m.nodes.len() as int;
        lemma_first_where(n, waiting_and_ready(m, done));
        lemma_first_where(n, waiting(m, done));
        let order = order_after(m, steps);
        match next_pick(m, done) {
            Some(k) => {
                assert(is_waiting(m, done, k));
                assert(order == done.push(k));
                assert(order.take(done.len() as int) =~= done);
                assert forall|p: int| 0 <= p < order.len() implies is_ready(
                    m,
                    order.take(p),
                    #[trigger] order[p],
                ) || forall|i: int|
                    is_waiting(m, order.take(p), i) ==> !is_ready(m, order.take(p), i) by {
                    if p < done.len() {
                        assert(order.take(p) =~= done.take(p));
                        assert(order[p] == done[p]);
                    } else {
                        if !is_ready(m, done, k) {
                            assert forall|i: int| is_waiting(m, done, i) implies !is_ready(
                                m,
                                done,
                                i,
                            ) by {
                                if is_ready(m, done, i) {
                                    assert(waiting_and_ready(m, done)(i));
                                }
                            }
                        }
                    }
                }
                assert forall|i: int, j: int|
                    0 <= i < order.len() && 0 <= j < order.len() && i != j implies order[i]
                    != order[j] by {
                    if i < done.len() && j < done.len() {
                        assert(done[i] != done[j]);
                    } else if i < done.len() {
                        assert(done[i] == order[i]);
                    } else {
                        assert(done[j] == order[j]);
                    }
                }
                if done.len() < steps - 1 {
                    assert(!is_waiting(m, done, k));
                }
            },
            None => {
                assert forall|i: int| !is_waiting(m, done, i) by {
                    if is_waiting(m, done, i) {
                        assert(waiting(m, done)(i));
                    }
                }
            },
        }
    }
}

/// A sequence of distinct numbers below `n` has at most `n` entries.
pub proof fn lemma_distinct_bounded(s: Seq<int>, n: int)
    requires
        0 <= n,
        s.no_duplicates(),
        forall|p: int| #![trigger s[p]] 0 <= p < s.len() ==> 0 <= s[p] && s[p] < n,
    ensures
        s.len() <= n,
        s.len() == n ==> forall|i: int| 0 <= i < n ==> s.contains(i),
    decreases n,
{
    if n == 0 {
        if s.len() > 0 {
            let x = s[0];
            assert(0 <= x && x < n);
        }
    } else {
        let last = n - 1;
        if s.contains(last) {
            let at = choose|at: int| 0 <= at < s.len() && s[at] == last;
            let rest = s.remove(at);
            assert forall|p: int| #![trigger rest[p]] 0 <= p < rest.len() implies 0 <= rest[p]
                && rest[p] < n - 1 by {
                if p < at {
                    assert(rest[p] == s[p]);
                    assert(s[p] != s[at]);
                } else {
                    assert(rest[p] == s[p + 1]);
                    assert(s[p + 1] != s[at]);
                }
            }
            assert forall|i: int, j: int|
                0 <= i < rest.len() && 0 <= j < rest.len() && i != j implies rest[i]
                != rest[j] by {
                let si = if i < at {
                    i
                } else {
                    i + 1
                };
                let sj = if j < at {
                    j
                } else {
                    j + 1
                };
                assert(rest[i] == s[si]);
                assert(rest[j] == s[sj]);
            }
            lemma_distinct_bounded(rest, n - 1);
            if s.len() == n {
                assert forall|i: int| 0 <= i < n implies s.contains(i) by {
                    if i < n - 1 {
                        assert(rest.contains(i));
                        let q = choose|q: int| 0 <= q < rest.len() && rest[q] == i;
                        if q < at {
                            assert(s[q] == i);
                        } else {
                            assert(s[q + 1] == i);
                        }
                    }
                }
            }
        } else {
            assert forall|p: int| #![trigger s[p]] 0 <= p < s.len() implies 0 <= s[p] && s[p]
                < n - 1 by {
                if s[p] == last {
                    assert(s.contains(last));
                }
            }
            lemma_distinct_bounded(s, n - 1);
        }
    }
}

/// Every node that is evaluated in dependency order has its place in the
/// order, and only such nodes have one, each once.
pub proof fn lemma_dag_order_complete(m: ManifestView)
    ensures
        dag_positions(m).no_duplicates(),
        forall|i: int|
            dag_positions(m).contains(i) <==> 0 <= i < m.nodes.len()
                && m.nodes[i].is_ordered_kind(),
{
    let order = dag_positions(m);
    let n = m.nodes.len() as int;
    lemma_order_after(m, m.nodes.len());
    lemma_distinct_bounded(order, n);
    assert forall|i: int| 0 <= i < n && m.nodes[i].is_ordered_kind() implies order.contains(
        i,
    ) by {
        if order.len() < n {
            assert(!is_waiting(m, order, i));
        }
    }
}

/// `rank` falls along every dependency between nodes that are evaluated
/// in dependency order.
pub open spec fn ranked(m: ManifestView, rank: spec_fn(int) -> nat) -> bool {
    forall|i: int, k: int| #[trigger] depends_on_position(m, i, k) ==> rank(k) < rank(i)
}

/// Among waiting nodes, one is ready when ranks fall along dependencies.
proof fn lemma_some_waiting_is_ready(
    m: ManifestView,
    done: Seq<int>,
    rank: spec_fn(int) -> nat,
    w: int,
) -> (r: int)
    requires
        ranked(m, rank),
        is_waiting(m, done, w),
    ensures
        is_waiting(m, done, r),
        is_ready(m, done, r),
    decreases rank(w),
{
    if is_ready(m, done, w) {
        w
    } else {
        let k = choose|k: int| #[trigger] depends_on_position(m, w, k) && !done.contains(k);
        assert(rank(k) < rank(w));
        lemma_some_waiting_is_ready(m, done, rank, k)
    }
}

/// Finalize before consume: where the dependencies have no cycle, every
/// node stands in the order behind all the nodes it reads.
pub proof fn lemma_dag_order_respects_dependencies(m: ManifestView, rank: spec_fn(int) -> nat)
    requires
        ranked(m, rank),
    ensures
        forall|p: int, k: int|
            0 <= p < dag_positions(m).len() && #[trigger] depends_on_position(
                m,
                dag_positions(m)[p],
                k,
            ) ==> dag_positions(m).take(p).contains(k),
{
    let order = dag_positions(m);
    lemma_order_after(m, m.nodes.len());
    assert forall|p: int, k: int|
        0 <= p < order.len() && #[trigger] depends_on_position(m, order[p], k) implies order.take(
            p,
        ).contains(k) by {
        let done = order.take(p);
        if !is_ready(m, done, order[p]) {
            assert(is_waiting(m, done, order[p])) by {
                if done.contains(order[p]) {
                    let q = choose|q: int| 0 <= q < done.len() && done[q] == order[p];
                    assert(order[q] == order[p]);
                }
            }
            let r = lemma_some_waiting_is_ready(m, done, rank, order[p]);
            assert(false);
        }
    }
}

fn dependency_positions(manifest: &Manifest, i: usize) -> (r: Vec<usize>)
    requires
        i < manifest.nodes.len(),
    ensures
        forall|x: int| 0 <= x < r.len() ==> #[trigger] r@[x] < manifest.nodes.len(),
        forall|k: int|
            #![trigger depends_on_position(manifest@, i as int, k)]
            depends_on_position(manifest@, i as int, k) <==> exists|x: int|
                0 <= x < r.len() && #[trigger] r@[x] == k,
{
    let node = &manifest.nodes[i];
    let ghost m = manifest@;
    let ghost deps = m.nodes[i as int].depends_on;
    let mut out: Vec<usize> = Vec::new();
    let mut j: usize = 0;
    while j < node.depends_on.len()
        invariant
            j <= node.depends_on.len(),
            i < manifest.nodes.len(),
            m == manifest@,
            *node == manifest.nodes@[i as int],
            deps == m.nodes[i as int].depends_on,
            deps.len() == node.depends_on.len(),
            forall|x: int| 0 <= x < out.len() ==> #[trigger] out@[x] < manifest.nodes.len(),
            forall|x: int|
                0 <= x < out.len() ==> m.nodes[#[trigger] out@[x] as int].is_ordered_kind()
                    && exists|y: int| 0 <= y < j && m.node_position(#[trigger] deps[y]) == out@[x],
            forall|y: int|
                0 <= y < j && m.node_position(#[trigger] deps[y]) < m.nodes.len()
                    && m.nodes[m.node_position(deps[y])].is_ordered_kind() ==> exists|x: int|
                    0 <= x < out.len() && #[trigger] out@[x] == m.node_position(deps[y]),
        decreases node.depends_on.len() - j,
    {
        assert(deps[j as int] == node.depends_on@[j as int]@);
        match manifest.node_index(&node.depends_on[j]) {
            Some(k) => {
                if manifest.nodes[k].is_ordered_kind() {
                    let ghost before = out@;
                    out.push(k);
                    assert forall|x: int| 0 <= x < out.len() implies m.nodes[#[trigger] out@[x] as int].is_ordered_kind()
                        && exists|y: int|
                        0 <= y < j + 1 && m.node_position(#[trigger] deps[y]) == out@[x] by {
                        if x < before.len() {
                            assert(out@[x] == before[x]);
                            let y = choose|y: int|
                                0 <= y < j && m.node_position(#[trigger] deps[y]) == before[x];
                            assert(m.node_position(deps[y]) == out@[x]);
                        } else {
                            assert(m.node_position(deps[j as int]) == out@[x]);
                        }
                    }
                    assert forall|y: int|
                        0 <= y < j + 1 && m.node_position(#[trigger] deps[y]) < m.nodes.len()
                            && m.nodes[m.node_position(
                            deps[y],
                        )].is_ordered_kind() implies exists|x: int|
                        0 <= x < out.len() && #[trigger] out@[x] == m.node_position(deps[y]) by {
                        if y < j {
                            let x = choose|x: int|
                                0 <= x < before.len() && #[trigger] before[x] == m.node_position(
                                    deps[y],
                                );
                            assert(out@[x] == before[x]);
                        } else {
                            assert(out@[out.len() - 1] == k);
                        }
                    }
                }
            },
            None => {},
        }
        j = j + 1;
    }
    proof {
        assert forall|k: int|
            #![trigger depends_on_position(m, i as int, k)]
            depends_on_position(m, i as int, k) <==> exists|x: int|
                0 <= x < out.len() && #[trigger] out@[x] == k by {
            if depends_on_position(m, i as int, k) {
                let y = choose|y: int|
                    0 <= y < deps.len() && m.node_position(#[trigger] deps[y]) == k;
                assert(exists|x: int| 0 <= x < out.len() && #[trigger] out@[x] == k);
            }
            if exists|x: int| 0 <= x < out.len() && #[trigger] out@[x] == k {
                let x = choose|x: int| 0 <= x < out.len() && #[trigger] out@[x] == k;
                assert(m.nodes[out@[x] as int].is_ordered_kind());
                let y = choose|y: int|
                    0 <= y < j && m.node_position(#[trigger] deps[y]) == out@[x];
                assert(m.node_position(deps[y]) == k);
            }
        }
    }
    out
}

/// Whether all of `deps` are placed.
fn all_placed(placed: &Vec<bool>, deps: &Vec<usize>) -> (r: bool)
    requires
        forall|x: int| 0 <= x < deps.len() ==> #[trigger] deps@[x] < placed.len(),
    ensures
        r == forall|x: int| 0 <= x < deps.len() ==> placed@[#[trigger] deps@[x] as int],
{
    let mut x: usize = 0;
    while x < deps.len()
        invariant
            x <= deps.len(),
            forall|y: int| 0 <= y < deps.len() ==> #[trigger] deps@[y] < placed.len(),
            forall|y: int| 0 <= y < x ==> placed@[#[trigger] deps@[y] as int],
        decreases deps.len() - x,
    {
        if !placed[deps[x]] {
            return false;
        }
        x = x + 1;
    }
    true
}

/// What the bookkeeping of the ordering holds: which nodes are placed, and
/// for each node the positions of the nodes it reads.
pub open spec fn books_kept(
    m: ManifestView,
    done: Seq<int>,
    placed: Seq<bool>,
    reads: Seq<Vec<usize>>,
) -> bool {
    &&& placed.len() == m.nodes.len()
    &&& reads.len() == m.nodes.len()
    &&& forall|i: int| 0 <= i < placed.len() ==> (#[trigger] placed[i] <==> done.contains(i))
    &&& forall|i: int, x: int|
        0 <= i < reads.len() && 0 <= x < reads[i].len() ==> #[trigger] reads[i]@[x] < m.nodes.len()
    &&& forall|i: int, k: int|
        #![trigger depends_on_position(m, i, k)]
        0 <= i < reads.len() ==> (depends_on_position(m, i, k) <==> exists|x: int|
            0 <= x < reads[i].len() && #[trigger] reads[i]@[x] == k)
}

/// The node to place next.
fn find_next(
    manifest: &Manifest,
    placed: &Vec<bool>,
    reads: &Vec<Vec<usize>>,
    Ghost(done): Ghost<Seq<int>>,
) -> (r: Option<usize>)
    requires
        books_kept(manifest@, done, placed@, reads@),
    ensures
        match r {
            Some(k) => next_pick(manifest@, done) == Some(k as int) && k < manifest.nodes.len(),
            None => next_pick(manifest@, done) is None,
        },
{
    let ghost m = manifest@;
    let n = manifest.nodes.len();
    let mut fallback: Option<usize> = None;
    let mut k: usize = 0;
    while k < n
        invariant
            k <= n,
            n == manifest.nodes.len(),
            m == manifest@,
            books_kept(m, done, placed@, reads@),
            forall|j: int| 0 <= j < k ==> !#[trigger] waiting_and_ready(m, done)(j),
            match fallback {
                Some(f) => f < k && is_waiting(m, done, f as int) && forall|j: int|
                    0 <= j < f ==> !#[trigger] waiting(m, done)(j),
                None => forall|j: int| 0 <= j < k ==> !#[trigger] waiting(m, done)(j),
            },
        decreases n - k,
    {
        assert(m.nodes[k as int] == manifest.nodes@[k as int]@);
        if manifest.nodes[k].is_ordered_kind() && !placed[k] {
            if fallback.is_none() {
                fallback = Some(k);
            }
            let ready = all_placed(placed, &reads[k]);
            proof {
                if ready {
                    assert forall|x: int| #[trigger]
                        depends_on_position(m, k as int, x) implies done.contains(x) by {
                        let at = choose|at: int|
                            0 <= at < reads@[k as int].len() && #[trigger] reads@[k as int]@[at]
                                == x;
                        assert(placed@[reads@[k as int]@[at] as int]);
                    }
                } else {
                    let at = choose|at: int|
                        0 <= at < reads@[k as int].len() && !placed@[#[trigger] reads@[k as int]@[at] as int];
                    let x = reads@[k as int]@[at] as int;
                    assert(depends_on_position(m, k as int, x));
                    assert(!done.contains(x));
                }
            }
            if ready {
                proof {
                    lemma_first_where_is(n as int, waiting_and_ready(m, done), k as int);
                }
                return Some(k);
            }
        }
        k = k + 1;
    }
    proof {
        lemma_first_where_is(n as int, waiting_and_ready(m, done), n as int);
        match fallback {
            Some(f) => {
                assert(waiting(m, done)(f as int));
                lemma_first_where_is(n as int, waiting(m, done), f as int);
            },
            None => {
                lemma_first_where_is(n as int, waiting(m, done), n as int);
            },
        }
    }
    fallback
}

/// The ids of the models, seeds, snapshots and analyses in the order in
/// which they are evaluated: dependencies first.
pub fn nodes_in_dag_order(manifest: &Manifest) -> (r: Vec<String>)
    ensures
        r.deep_view() == dag_order(manifest@),
{
    let ghost m = manifest@;
    let n = manifest.nodes.len();
    let mut reads: Vec<Vec<usize>> = Vec::new();
    let mut i: usize = 0;
    while i < n
        invariant
            i <= n,
            n == manifest.nodes.len(),
            m == manifest@,
            reads.len() == i,
            forall|a: int, x: int|
                0 <= a < reads.len() && 0 <= x < reads@[a].len() ==> #[trigger] reads@[a]@[x]
                    < m.nodes.len(),
            forall|a: int, k: int|
                #![trigger depends_on_position(m, a, k)]
                0 <= a < reads.len() ==> (depends_on_position(m, a, k) <==> exists|x: int|
                    0 <= x < reads@[a].len() && #[trigger] reads@[a]@[x] == k),
        decreases n - i,
    {
        let list = dependency_positions(manifest, i);
        let ghost before = reads@;
        reads.push(list);
        proof {
            assert forall|a: int, x: int|
                0 <= a < reads.len() && 0 <= x < reads@[a].len() implies #[trigger] reads@[a]@[x]
                < m.nodes.len() by {
                if a < i {
                    assert(reads@[a] == before[a]);
                }
            }
            assert forall|a: int, k: int|
                #![trigger depends_on_position(m, a, k)]
                0 <= a < reads.len() implies (depends_on_position(m, a, k) <==> exists|x: int|
                    0 <= x < reads@[a].len() && #[trigger] reads@[a]@[x] == k) by {
                if a < i {
                    assert(reads@[a] == before[a]);
                    if depends_on_position(m, a, k) {
                        let x = choose|x: int|
                            0 <= x < before[a].len() && #[trigger] before[a]@[x] == k;
                        assert(reads@[a]@[x] == k);
                    }
                } else {
                    assert(reads@[a] == list);
                    if depends_on_position(m, a, k) {
                        let x = choose|x: int| 0 <= x < list.len() && #[trigger] list@[x] == k;
                        assert(reads@[a]@[x] == k);
                    }
                }
            }
        }
        i = i + 1;
    }
    let mut placed: Vec<bool> = Vec::new();
    let mut c: usize = 0;
    while c < n
        invariant
            c <= n,
            placed.len() == c,
            forall|a: int| 0 <= a < c ==> !#[trigger] placed@[a],
        decreases n - c,
    {
        placed.push(false);
        c = c + 1;
    }
    let mut order: Vec<usize> = Vec::new();
    let ghost mut done: Seq<int> = Seq::empty();
    let mut step: usize = 0;
    while step < n
        invariant
            step <= n,
            n == manifest.nodes.len(),
            m == manifest@,
            done == order_after(m, step as nat),
            order@.len() == done.len(),
            forall|p: int| 0 <= p < order.len() ==> #[trigger] order@[p] as int == done[p],
            forall|p: int| 0 <= p < order.len() ==> #[trigger] order@[p] < n,
            books_kept(m, done, placed@, reads@),
        decreases n - step,
    {
        match find_next(manifest, &placed, &reads, Ghost(done)) {
            Some(k) => {
                let ghost before = done;
                placed.set(k, true);
                order.push(k);
                proof {
                    done = before.push(k as int);
                    assert forall|a: int| 0 <= a < placed.len() implies (#[trigger] placed@[a]
                        <==> done.contains(a)) by {
                        if a == k {
                            assert(done[before.len() as int] == k);
                        } else {
                            if before.contains(a) {
                                let q = choose|q: int| 0 <= q < before.len() && before[q] == a;
                                assert(done[q] == a);
                            }
                            if done.contains(a) {
                                let q = choose|q: int| 0 <= q < done.len() && done[q] == a;
                                assert(before[q] == a);
                            }
                        }
                    }
                }
            },
            None => {},
        }
        step = step + 1;
    }
    let mut ids: Vec<String> = Vec::new();
    let mut p: usize = 0;
    while p < order.len()
        invariant
            p <= order.len(),
            n == manifest.nodes.len(),
            m == manifest@,
            done == dag_positions(m),
            order@.len() == done.len(),
            forall|q: int| 0 <= q < order.len() ==> #[trigger] order@[q] as int == done[q],
            forall|q: int| 0 <= q < order.len() ==> #[trigger] order@[q] < n,
            ids@.len() == p,
            forall|q: int| 0 <= q < p ==> (#[trigger] ids@[q])@ == m.nodes[done[q]].unique_id,
        decreases order.len() - p,
    {
        assert(order@[p as int] < n);
        ids.push(manifest.nodes[order[p]].unique_id.clone());
        p = p + 1;
    }
    assert(ids.deep_view() =~= dag_order(m));
    ids
}

} // verus!
