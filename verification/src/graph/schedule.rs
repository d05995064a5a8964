//! The order in which the nodes of a genome are written.
//!
//! A node's level is 0 where it reads raw series only, and otherwise one more
//! than the highest level among the nodes it reads. Nodes are written from the
//! lowest level to the highest; within a level, the later node first.
use vstd::prelude::*;

use super::{GraphError, In, Node};

verus! {

/// The highest level among the first `upto` inputs, plus one for each step; 0
/// where none of them is a node.
pub open spec fn level_over(inputs: Seq<In>, lv: Seq<nat>, upto: nat) -> nat
    decreases upto,
{
    if upto == 0 || upto > inputs.len() {
        0
    } else {
        let rest = level_over(inputs, lv, (upto - 1) as nat);
        match inputs[upto - 1] {
            In::FromOperator(k) => if lv[k as int] + 1 > rest {
                lv[k as int] + 1
            } else {
                rest
            },
            In::FromExtractor(_) => rest,
        }
    }
}

/// The level of a node whose inputs have the levels `lv`.
pub open spec fn level_of(inputs: Seq<In>, lv: Seq<nat>) -> nat {
    level_over(inputs, lv, inputs.len())
}

/// Whether every node that `inputs` names is one of `n` nodes.
pub open spec fn refs_below(inputs: Seq<In>, n: int) -> bool {
    forall|j: int| 0 <= j < inputs.len() ==> (#[trigger] inputs[j] matches In::FromOperator(k) ==> k < n)
}

/// Whether `lv` gives every node its level, each node reading something and
/// only nodes that exist.
pub open spec fn is_leveling(nodes: Seq<Node>, lv: Seq<nat>) -> bool {
    &&& lv.len() == nodes.len()
    &&& forall|i: int| #![trigger nodes[i]]
        0 <= i < nodes.len() ==> {
            &&& nodes[i].inputs@.len() > 0
            &&& refs_below(nodes[i].inputs@, nodes.len() as int)
            &&& lv[i] == level_of(nodes[i].inputs@, lv)
        }
}

/// Whether the nodes form a DAG fed by the extractors.
pub open spec fn is_dag(nodes: Seq<Node>) -> bool {
    exists|lv: Seq<nat>| is_leveling(nodes, lv)
}

/// Whether node `a` is written before node `b`.
pub open spec fn precedes(lv: Seq<nat>, a: int, b: int) -> bool {
    lv[a] < lv[b] || (lv[a] == lv[b] && a > b)
}

/// Whether `order` lists each of the nodes with levels `lv` once, each before
/// those it precedes.
pub open spec fn is_schedule(lv: Seq<nat>, order: Seq<usize>) -> bool {
    &&& forall|a: int| 0 <= a < order.len() ==> (#[trigger] order[a]) < lv.len()
    &&& forall|a: int, b: int| 0 <= a < b < order.len() ==> precedes(lv, (#[trigger] order[a]) as int, (#[trigger] order[b]) as int)
    &&& forall|i: int| 0 <= i < lv.len() ==> order.contains(#[trigger] (i as usize))
}

proof fn lemma_level_over_bounds(inputs: Seq<In>, lv: Seq<nat>, upto: nat)
    requires
        upto <= inputs.len(),
    ensures
        forall|j: int| 0 <= j < upto ==> (#[trigger] inputs[j] matches In::FromOperator(k) ==> lv[k as int] < level_over(
            inputs,
            lv,
            upto,
        )),
    decreases upto,
{
    if upto > 0 {
        lemma_level_over_bounds(inputs, lv, (upto - 1) as nat);
    }
}

/// A node stands above every node that it reads.
pub proof fn lemma_reads_lower(nodes: Seq<Node>, lv: Seq<nat>, i: int, j: int)
    requires
        is_leveling(nodes, lv),
        0 <= i < nodes.len(),
        0 <= j < nodes[i].inputs@.len(),
    ensures
        nodes[i].inputs@[j] matches In::FromOperator(k) ==> k < nodes.len() && lv[k as int] < lv[i],
{
    lemma_level_over_bounds(nodes[i].inputs@, lv, nodes[i].inputs@.len());
}

proof fn lemma_level_over_same(inputs: Seq<In>, a: Seq<nat>, b: Seq<nat>, upto: nat)
    requires
        upto <= inputs.len(),
        forall|j: int| 0 <= j < upto ==> (#[trigger] inputs[j] matches In::FromOperator(k) ==> a[k as int] == b[k as int]),
    ensures
        level_over(inputs, a, upto) == level_over(inputs, b, upto),
    decreases upto,
{
    if upto > 0 {
        lemma_level_over_same(inputs, a, b, (upto - 1) as nat);
    }
}

proof fn lemma_leveling_unique_at(nodes: Seq<Node>, a: Seq<nat>, b: Seq<nat>, i: int)
    requires
        is_leveling(nodes, a),
        is_leveling(nodes, b),
        0 <= i < nodes.len(),
    ensures
        a[i] == b[i],
    decreases a[i],
{
    let inputs = nodes[i].inputs@;
    assert forall|j: int| 0 <= j < inputs.len() implies (#[trigger] inputs[j] matches In::FromOperator(k) ==> a[k as int]
        == b[k as int]) by {
        if let In::FromOperator(k) = inputs[j] {
            lemma_reads_lower(nodes, a, i, j);
            lemma_leveling_unique_at(nodes, a, b, k as int);
        }
    }
    lemma_level_over_same(inputs, a, b, inputs.len());
}

/// A DAG has one leveling only.
pub proof fn leveling_unique(nodes: Seq<Node>, a: Seq<nat>, b: Seq<nat>)
    requires
        is_leveling(nodes, a),
        is_leveling(nodes, b),
    ensures
        a == b,
{
    assert forall|i: int| 0 <= i < a.len() implies a[i] == b[i] by {
        lemma_leveling_unique_at(nodes, a, b, i);
    }
    assert(a =~= b);
}

/// A schedule lists every node that a node reads before that node.
pub proof fn schedule_is_topological(nodes: Seq<Node>, lv: Seq<nat>, order: Seq<usize>, p: int, j: int)
    requires
        is_leveling(nodes, lv),
        is_schedule(lv, order),
        0 <= p < order.len(),
        0 <= j < nodes[order[p] as int].inputs@.len(),
    ensures
        nodes[order[p] as int].inputs@[j] matches In::FromOperator(k) ==> exists|q: int|
            0 <= q < p && #[trigger] order[q] == k,
{
    let i = order[p] as int;
    if let In::FromOperator(k) = nodes[i].inputs@[j] {
        lemma_reads_lower(nodes, lv, i, j);
        assert(order.contains((k as int) as usize));
        let q = choose|q: int| 0 <= q < order.len() && order[q] == k;
        if q > p {
            assert(precedes(lv, order[p] as int, order[q] as int));
        }
    }
}

/// Two schedules of the same levels are the same.
pub proof fn schedule_unique(lv: Seq<nat>, a: Seq<usize>, b: Seq<usize>)
    requires
        is_schedule(lv, a),
        is_schedule(lv, b),
        lv.len() <= usize::MAX,
    ensures
        a == b,
{
    lemma_schedule_len(lv, a);
    lemma_schedule_len(lv, b);
    lemma_schedule_prefix(lv, a, b, a.len() as int);
    assert(a =~= b);
}

proof fn lemma_schedule_len(lv: Seq<nat>, a: Seq<usize>)
    requires
        is_schedule(lv, a),
        lv.len() <= usize::MAX,
    ensures
        a.len() == lv.len(),
{
    let all = Seq::new(lv.len(), |i: int| i as usize);
    assert(a.no_duplicates()) by {
        assert forall|x: int, y: int| 0 <= x < a.len() && 0 <= y < a.len() && x != y implies a[x] != a[y] by {
            if x < y {
                assert(precedes(lv, a[x] as int, a[y] as int));
            } else {
                assert(precedes(lv, a[y] as int, a[x] as int));
            }
        }
    }
    assert(all.no_duplicates());
    assert(a.to_set() =~= all.to_set()) by {
        assert forall|v: usize| a.to_set().contains(v) <==> all.to_set().contains(v) by {
            if a.contains(v) {
                let x = choose|x: int| 0 <= x < a.len() && a[x] == v;
                assert(all[v as int] == v);
                assert(all.contains(v));
            }
            if all.contains(v) {
                let x = choose|x: int| 0 <= x < all.len() && all[x] == v;
                assert(a.contains((x as int) as usize));
            }
        }
    }
    a.unique_seq_to_set();
    all.unique_seq_to_set();
}

proof fn lemma_schedule_prefix(lv: Seq<nat>, a: Seq<usize>, b: Seq<usize>, n: int)
    requires
        is_schedule(lv, a),
        is_schedule(lv, b),
        a.len() == b.len(),
        0 <= n <= a.len(),
    ensures
        forall|i: int| 0 <= i < n ==> a[i] == b[i],
    decreases n,
{
    if n > 0 {
        lemma_schedule_prefix(lv, a, b, n - 1);
        let p = n - 1;
        assert(a.contains((b[p] as int) as usize));
        assert(b.contains((a[p] as int) as usize));
        let x = choose|x: int| 0 <= x < a.len() && a[x] == b[p];
        let y = choose|y: int| 0 <= y < b.len() && b[y] == a[p];
        if a[p] != b[p] {
            if x < p {
                assert(b[x] == b[p]);
                assert(precedes(lv, b[x] as int, b[p] as int));
            }
            if y < p {
                assert(a[y] == a[p]);
                assert(precedes(lv, a[y] as int, a[p] as int));
            }
            assert(precedes(lv, a[p] as int, a[x] as int));
            assert(precedes(lv, b[p] as int, b[y] as int));
        }
    }
}

/// Levels as mathematical numbers.
pub open spec fn nats(v: Seq<usize>) -> Seq<nat> {
    Seq::new(v.len(), |i: int| v[i] as nat)
}

/// Whether the level of every node that `inputs` names is known.
spec fn ready(inputs: Seq<In>, known: Seq<bool>) -> bool {
    forall|j: int| 0 <= j < inputs.len() ==> (#[trigger] inputs[j] matches In::FromOperator(k) ==> known[k as int])
}

spec fn count_known(known: Seq<bool>) -> nat
    decreases known.len(),
{
    if known.len() == 0 {
        0
    } else {
        count_known(known.drop_last()) + (if known.last() { 1nat } else { 0nat })
    }
}

proof fn lemma_count_bound(known: Seq<bool>)
    ensures
        count_known(known) <= known.len(),
        count_known(known) == known.len() ==> forall|i: int| 0 <= i < known.len() ==> known[i],
    decreases known.len(),
{
    if known.len() > 0 {
        lemma_count_bound(known.drop_last());
        if count_known(known) == known.len() {
            assert forall|i: int| 0 <= i < known.len() implies known[i] by {
                if i < known.len() - 1 {
                    assert(known.drop_last()[i]);
                }
            }
        }
    }
}

proof fn lemma_count_none(known: Seq<bool>)
    requires
        forall|i: int| 0 <= i < known.len() ==> !known[i],
    ensures
        count_known(known) == 0,
    decreases known.len(),
{
    if known.len() > 0 {
        lemma_count_none(known.drop_last());
    }
}

proof fn lemma_count_set(known: Seq<bool>, i: int)
    requires
        0 <= i < known.len(),
        !known[i],
    ensures
        count_known(known.update(i, true)) == count_known(known) + 1,
    decreases known.len(),
{
    let next = known.update(i, true);
    if i == known.len() - 1 {
        assert(next.drop_last() =~= known.drop_last());
    } else {
        lemma_count_set(known.drop_last(), i);
        assert(next.drop_last() =~= known.drop_last().update(i, true));
        assert(next.last() == known.last());
    }
}

proof fn lemma_all_known(nodes: Seq<Node>, lv: Seq<nat>, known: Seq<bool>, i: int)
    requires
        is_leveling(nodes, lv),
        known.len() == nodes.len(),
        0 <= i < nodes.len(),
        forall|x: int| #![trigger nodes[x]] 0 <= x < nodes.len() && !known[x] ==> !ready(nodes[x].inputs@, known),
    ensures
        known[i],
    decreases lv[i],
{
    let inputs = nodes[i].inputs@;
    assert forall|j: int| 0 <= j < inputs.len() implies (#[trigger] inputs[j] matches In::FromOperator(k)
        ==> known[k as int]) by {
        if let In::FromOperator(k) = inputs[j] {
            lemma_reads_lower(nodes, lv, i, j);
            lemma_all_known(nodes, lv, known, k as int);
        }
    }
    assert(ready(inputs, known));
}

/// Whether a node reads something and only nodes that exist.
fn reads_well(inputs: &Vec<In>, n: usize) -> (r: bool)
    ensures
        r == (inputs@.len() > 0 && refs_below(inputs@, n as int)),
{
    if inputs.len() == 0 {
        return false;
    }
    let mut j: usize = 0;
    while j < inputs.len()
        invariant
            j <= inputs@.len(),
            forall|x: int| 0 <= x < j ==> (#[trigger] inputs@[x] matches In::FromOperator(k) ==> k < n),
        decreases inputs@.len() - j,
    {
        if let In::FromOperator(k) = inputs[j] {
            if k >= n {
                assert(!(inputs@[j as int] matches In::FromOperator(k2) ==> k2 < n));
                return false;
            }
        }
        j += 1;
    }
    true
}

/// The level of a node, where all that it reads is known.
fn try_level(inputs: &Vec<In>, known: &Vec<bool>, lv: &Vec<usize>, cap: usize) -> (r: Option<usize>)
    requires
        known@.len() == lv@.len(),
        refs_below(inputs@, lv@.len() as int),
        forall|i: int| 0 <= i < lv@.len() && known@[i] ==> (#[trigger] lv@[i]) < cap,
    ensures
        r is Some <==> ready(inputs@, known@),
        r is Some ==> r->0 == level_of(inputs@, nats(lv@)) && r->0 <= cap,
{
    let mut best: usize = 0;
    let mut j: usize = 0;
    while j < inputs.len()
        invariant
            j <= inputs@.len(),
            known@.len() == lv@.len(),
            refs_below(inputs@, lv@.len() as int),
            forall|i: int| 0 <= i < lv@.len() && known@[i] ==> (#[trigger] lv@[i]) < cap,
            forall|x: int| 0 <= x < j ==> (#[trigger] inputs@[x] matches In::FromOperator(k) ==> known@[k as int]),
            best == level_over(inputs@, nats(lv@), j as nat),
            best <= cap,
        decreases inputs@.len() - j,
    {
        if let In::FromOperator(k) = inputs[j] {
            assert(inputs@[j as int] matches In::FromOperator(k2) ==> k2 < lv@.len());
            if !known[k] {
                assert(!(inputs@[j as int] matches In::FromOperator(k2) ==> known@[k2 as int]));
                return None;
            }
            let up: usize = lv[k] + 1;
            if up > best {
                best = up;
            }
        }
        j += 1;
    }
    Some(best)
}

/// The level of every node, where the nodes form a DAG fed by the extractors.
pub fn levels(nodes: &Vec<Node>) -> (r: Result<Vec<usize>, GraphError>)
    ensures
        r is Ok <==> is_dag(nodes@),
        r matches Ok(v) ==> is_leveling(nodes@, nats(v@)),
        r matches Err(e) ==> e == GraphError::Cycle,
{
    let n: usize = nodes.len();
    let mut known: Vec<bool> = Vec::new();
    let mut lv: Vec<usize> = Vec::new();
    let mut i: usize = 0;
    while i < n
        invariant
            i <= n == nodes@.len(),
            known@.len() == i,
            lv@.len() == i,
            forall|x: int| 0 <= x < i ==> !known@[x],
            forall|x: int| #![trigger nodes@[x]]
                0 <= x < i ==> nodes@[x].inputs@.len() > 0 && refs_below(nodes@[x].inputs@, n as int),
        decreases n - i,
    {
        if !reads_well(&nodes[i].inputs, n) {
            assert forall|l: Seq<nat>| !is_leveling(nodes@, l) by {
                let bad = nodes@[i as int];
            }
            return Err(GraphError::Cycle);
        }
        known.push(false);
        lv.push(0);
        i += 1;
    }
    let mut done: usize = 0;
    proof {
        lemma_count_none(known@);
    }
    while done < n
        invariant
            n == nodes@.len() == known@.len() == lv@.len(),
            done == count_known(known@),
            done <= n,
            forall|x: int| #![trigger nodes@[x]]
                0 <= x < n ==> nodes@[x].inputs@.len() > 0 && refs_below(nodes@[x].inputs@, n as int),
            forall|x: int| 0 <= x < n && known@[x] ==> (#[trigger] lv@[x]) < done,
            forall|x: int| #![trigger nodes@[x]]
                0 <= x < n && known@[x] ==> ready(nodes@[x].inputs@, known@) && lv@[x] == level_of(
                    nodes@[x].inputs@,
                    nats(lv@),
                ),
        decreases n - done,
    {
        let before = done;
        let mut i: usize = 0;
        while i < n
            invariant
                i <= n == nodes@.len() == known@.len() == lv@.len(),
                done == count_known(known@),
                before <= done <= n,
                forall|x: int| #![trigger nodes@[x]]
                    0 <= x < n ==> nodes@[x].inputs@.len() > 0 && refs_below(nodes@[x].inputs@, n as int),
                forall|x: int| 0 <= x < n && known@[x] ==> (#[trigger] lv@[x]) < done,
                forall|x: int| #![trigger nodes@[x]]
                    0 <= x < n && known@[x] ==> ready(nodes@[x].inputs@, known@) && lv@[x] == level_of(
                        nodes@[x].inputs@,
                        nats(lv@),
                    ),
                done == before ==> forall|x: int| #![trigger nodes@[x]]
                    0 <= x < i && !known@[x] ==> !ready(nodes@[x].inputs@, known@),
            decreases n - i,
        {
            let ghost at = nodes@[i as int];
            if !known[i] {
                if let Some(l) = try_level(&nodes[i].inputs, &known, &lv, done) {
                    let ghost known0 = known@;
                    let ghost lv0 = lv@;
                    proof {
                        lemma_count_set(known0, i as int);
                        lemma_count_bound(known0.update(i as int, true));
                    }
                    known.set(i, true);
                    lv.set(i, l);
                    done += 1;
                    proof {
                        assert forall|x: int| #![trigger nodes@[x]] 0 <= x < n && known@[x] implies ready(
                            nodes@[x].inputs@,
                            known@,
                        ) && lv@[x] == level_of(nodes@[x].inputs@, nats(lv@)) by {
                            let inputs = nodes@[x].inputs@;
                            assert(ready(inputs, known0));
                            assert forall|j: int| 0 <= j < inputs.len() implies (
                                #[trigger] inputs[j] matches In::FromOperator(k) ==> known@[k as int] && nats(lv0)[k as int]
                                    == nats(lv@)[k as int]) by {
                                if let In::FromOperator(k) = inputs[j] {
                                    assert(known0[k as int]);
                                }
                            }
                            lemma_level_over_same(inputs, nats(lv0), nats(lv@), inputs.len());
                        }
                    }
                }
            }
            i += 1;
        }
        if done == before {
            proof {
                assert(exists|x: int| 0 <= x < n && !known@[x]) by {
                    if forall|x: int| 0 <= x < n ==> known@[x] {
                        lemma_count_all(known@);
                    }
                }
                let x = choose|x: int| 0 <= x < n && !known@[x];
                assert forall|l: Seq<nat>| !is_leveling(nodes@, l) by {
                    if is_leveling(nodes@, l) {
                        lemma_all_known(nodes@, l, known@, x);
                    }
                }
            }
            return Err(GraphError::Cycle);
        }
    }
    proof {
        lemma_count_bound(known@);
        assert(is_leveling(nodes@, nats(lv@)));
    }
    Ok(lv)
}

proof fn lemma_count_all(known: Seq<bool>)
    requires
        forall|i: int| 0 <= i < known.len() ==> known[i],
    ensures
        count_known(known) == known.len(),
    decreases known.len(),
{
    if known.len() > 0 {
        lemma_count_all(known.drop_last());
    }
}

/// The nodes in the order in which they are written.
pub fn schedule(lv: &Vec<usize>) -> (order: Vec<usize>)
    ensures
        is_schedule(nats(lv@), order@),
{
    let n: usize = lv.len();
    let mut top: usize = 0;
    let mut i: usize = 0;
    while i < n
        invariant
            i <= n == lv@.len(),
            forall|x: int| 0 <= x < i ==> lv@[x] <= top,
        decreases n - i,
    {
        if lv[i] > top {
            top = lv[i];
        }
        i += 1;
    }
    let ghost l = nats(lv@);
    let mut order: Vec<usize> = Vec::new();
    let mut level: usize = 0;
    loop
        invariant
            n == lv@.len(),
            l == nats(lv@),
            level <= top,
            forall|x: int| 0 <= x < n ==> lv@[x] <= top,
            forall|a: int| 0 <= a < order@.len() ==> (#[trigger] order@[a]) < n && lv@[order@[a] as int] < level,
            forall|a: int, b: int|
                0 <= a < b < order@.len() ==> precedes(l, (#[trigger] order@[a]) as int, (#[trigger] order@[b]) as int),
            forall|x: int| 0 <= x < n && lv@[x] < level ==> order@.contains(#[trigger] (x as usize)),
        decreases top - level,
    {
        let mut k: usize = n;
        while k > 0
            invariant
                k <= n == lv@.len(),
                l == nats(lv@),
                forall|a: int|
                    0 <= a < order@.len() ==> (#[trigger] order@[a]) < n && (lv@[order@[a] as int] < level || (
                    lv@[order@[a] as int] == level && order@[a] >= k)),
                forall|a: int, b: int|
                    0 <= a < b < order@.len() ==> precedes(l, (#[trigger] order@[a]) as int, (#[trigger] order@[b]) as int),
                forall|x: int|
                    0 <= x < n && (lv@[x] < level || (lv@[x] == level && x >= k)) ==> order@.contains(
                        #[trigger] (x as usize),
                    ),
            decreases k,
        {
            k -= 1;
            if lv[k] == level {
                let ghost before = order@;
                order.push(k);
                proof {
                    assert forall|x: int|
                        0 <= x < n && (lv@[x] < level || (lv@[x] == level && x >= k)) implies order@.contains(
                        #[trigger] (x as usize),
                    ) by {
                        if x == k {
                            assert(order@[order@.len() - 1] == x as usize);
                        } else {
                            assert(before.contains(x as usize));
                            let q = choose|q: int| 0 <= q < before.len() && before[q] == x as usize;
                            assert(order@[q] == x as usize);
                        }
                    }
                }
            }
        }
        if level == top {
            assert forall|x: int| 0 <= x < l.len() implies order@.contains(#[trigger] (x as usize)) by {
                assert(lv@[x] <= top);
            }
            return order;
        }
        level += 1;
    }
}

} // verus!
