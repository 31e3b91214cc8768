use vstd::prelude::*;
use crate::graph::{Link, Node};

verus! {

/// `a` comes strictly before `b` in `order`.
pub open spec fn precedes(order: Seq<u64>, a: u64, b: u64) -> bool {
    exists|i: int, j: int| 0 <= i < j < order.len() && #[trigger] order[i] == a && #[trigger] order[j] == b
}

/// `order` lists every node exactly once, and every link runs from an earlier
/// node to a later one.
pub open spec fn is_topo_order(nodes: Map<u64, Node>, links: Map<u64, Link>, order: Seq<u64>) -> bool {
    &&& order.no_duplicates()
    &&& order.to_set() == nodes.dom()
    &&& forall|l: u64| #[trigger] links.contains_key(l) ==> precedes(order, links[l].from.0, links[l].to.0)
}

/// Some order of the nodes puts every link forward.
pub open spec fn acyclic_maps(nodes: Map<u64, Node>, links: Map<u64, Link>) -> bool {
    exists|o: Seq<u64>| is_topo_order(nodes, links, o)
}

/// Every link of `links2` is a link of `links` between the same two nodes.
pub open spec fn links_within(links2: Map<u64, Link>, links: Map<u64, Link>) -> bool {
    forall|l: u64| #[trigger] links2.contains_key(l) ==> {
        &&& links.contains_key(l)
        &&& links2[l].from.0 == links[l].from.0
        &&& links2[l].to.0 == links[l].to.0
    }
}

/// Keeping the same nodes and a part of the links keeps the graph acyclic.
pub proof fn lemma_acyclic_within(
    nodes: Map<u64, Node>,
    links: Map<u64, Link>,
    nodes2: Map<u64, Node>,
    links2: Map<u64, Link>,
)
    requires
        acyclic_maps(nodes, links),
        nodes2.dom() == nodes.dom(),
        links_within(links2, links),
    ensures
        acyclic_maps(nodes2, links2),
{
    let o = choose|o: Seq<u64>| is_topo_order(nodes, links, o);
    assert forall|l: u64| #[trigger] links2.contains_key(l) implies precedes(o, links2[l].from.0, links2[l].to.0) by {
        assert(links.contains_key(l));
    }
    assert(is_topo_order(nodes2, links2, o));
}

/// A new node whose links all leave it towards existing nodes keeps the graph
/// acyclic: it goes first.
pub proof fn lemma_acyclic_add_source(
    nodes: Map<u64, Node>,
    links: Map<u64, Link>,
    id: u64,
    node: Node,
    links2: Map<u64, Link>,
)
    requires
        acyclic_maps(nodes, links),
        !nodes.contains_key(id),
        forall|l: u64| #[trigger] links2.contains_key(l) ==> {
            ||| (links.contains_key(l) && links2[l].from.0 == links[l].from.0 && links2[l].to.0 == links[l].to.0)
            ||| (links2[l].from.0 == id && nodes.contains_key(links2[l].to.0))
        },
    ensures
        acyclic_maps(nodes.insert(id, node), links2),
{
    let o = choose|o: Seq<u64>| is_topo_order(nodes, links, o);
    let o2 = seq![id] + o;
    assert(o2.no_duplicates()) by {
        assert forall|i: int, j: int| 0 <= i < j < o2.len() implies o2[i] != o2[j] by {
            if i == 0 {
                assert(o.to_set().contains(o[j - 1]));
            } else {
                assert(o2[i] == o[i - 1] && o2[j] == o[j - 1]);
            }
        }
    }
    assert(o2.to_set() =~= nodes.insert(id, node).dom()) by {
        assert forall|x: u64| o2.to_set().contains(x) <==> nodes.insert(id, node).dom().contains(x) by {
            if o2.to_set().contains(x) {
                let i = o2.index_of(x);
                if i > 0 {
                    assert(o2[i] == o[i - 1]);
                    assert(o.to_set().contains(o[i - 1]));
                }
            }
            if nodes.insert(id, node).dom().contains(x) {
                if x == id {
                    assert(o2[0] == x);
                } else {
                    assert(o.to_set().contains(x));
                    let i = o.index_of(x);
                    assert(o2[i + 1] == x);
                }
            }
        }
    }
    assert forall|l: u64| #[trigger] links2.contains_key(l) implies precedes(o2, links2[l].from.0, links2[l].to.0) by {
        if links.contains_key(l) && links2[l].from.0 == links[l].from.0 && links2[l].to.0 == links[l].to.0 {
            assert(precedes(o, links[l].from.0, links[l].to.0));
            let (i, j) = choose|i: int, j: int| 0 <= i < j < o.len() && #[trigger] o[i] == links[l].from.0 && #[trigger] o[j] == links[l].to.0;
            assert(o2[i + 1] == o[i] && o2[j + 1] == o[j]);
        } else {
            let t = links2[l].to.0;
            assert(o.to_set().contains(t));
            let j = o.index_of(t);
            assert(o2[0] == id && o2[j + 1] == t);
        }
    }
    assert(is_topo_order(nodes.insert(id, node), links2, o2));
}

/// Taking a node out, together with every link that touches it, keeps the
/// graph acyclic.
pub proof fn lemma_acyclic_remove_node(
    nodes: Map<u64, Node>,
    links: Map<u64, Link>,
    id: u64,
    links2: Map<u64, Link>,
)
    requires
        acyclic_maps(nodes, links),
        links_within(links2, links),
        forall|l: u64| #[trigger] links2.contains_key(l) ==> links2[l].from.0 != id && links2[l].to.0 != id,
    ensures
        acyclic_maps(nodes.remove(id), links2),
{
    let o = choose|o: Seq<u64>| is_topo_order(nodes, links, o);
    if !nodes.contains_key(id) {
        assert(nodes.remove(id) =~= nodes);
        lemma_acyclic_within(nodes, links, nodes, links2);
    } else {
        assert(o.to_set().contains(id));
        let k = o.index_of(id);
        let o2 = o.remove(k);
        assert forall|i: int| 0 <= i < o2.len() implies #[trigger] o2[i] == (if i < k { o[i] } else { o[i + 1] }) by {
        }
        assert(o2.no_duplicates()) by {
            assert forall|i: int, j: int| 0 <= i < j < o2.len() implies o2[i] != o2[j] by {
                let a = if i < k { i } else { i + 1 };
                let b = if j < k { j } else { j + 1 };
                assert(o2[i] == o[a] && o2[j] == o[b] && a < b);
            }
        }
        assert(o2.to_set() =~= nodes.remove(id).dom()) by {
            assert forall|x: u64| o2.to_set().contains(x) <==> nodes.remove(id).dom().contains(x) by {
                if o2.to_set().contains(x) {
                    let i = o2.index_of(x);
                    let a = if i < k { i } else { i + 1 };
                    assert(o2[i] == o[a]);
                    assert(o.to_set().contains(o[a]));
                    assert(o[a] != o[k]);
                }
                if nodes.remove(id).dom().contains(x) {
                    assert(o.to_set().contains(x));
                    let a = o.index_of(x);
                    assert(a != k);
                    if a < k {
                        assert(o2[a] == x);
                    } else {
                        assert(o2[a - 1] == x);
                    }
                }
            }
        }
        assert forall|l: u64| #[trigger] links2.contains_key(l) implies precedes(o2, links2[l].from.0, links2[l].to.0) by {
            assert(links.contains_key(l));
            assert(precedes(o, links[l].from.0, links[l].to.0));
            let (a, b) = choose|a: int, b: int| 0 <= a < b < o.len() && #[trigger] o[a] == links[l].from.0 && #[trigger] o[b] == links[l].to.0;
            assert(a != k && b != k);
            let i = if a < k { a } else { a - 1 };
            let j = if b < k { b } else { b - 1 };
            assert(o2[i] == o[a] && o2[j] == o[b]);
        }
        assert(is_topo_order(nodes.remove(id), links2, o2));
    }
}

/// Some order of the nodes puts every link forward, and `link` too.
pub open spec fn acyclic_with(nodes: Map<u64, Node>, links: Map<u64, Link>, link: Link) -> bool {
    exists|o: Seq<u64>| is_topo_order(nodes, links, o) && precedes(o, link.from.0, link.to.0)
}

/// Adding a link under a fresh key leaves the graph acyclic exactly when
/// some order puts the old links and the new one forward.
pub proof fn lemma_acyclic_insert(nodes: Map<u64, Node>, links: Map<u64, Link>, lid: u64, link: Link)
    requires
        !links.contains_key(lid),
    ensures
        acyclic_maps(nodes, links.insert(lid, link)) <==> acyclic_with(nodes, links, link),
{
    let links2 = links.insert(lid, link);
    if acyclic_maps(nodes, links2) {
        let o = choose|o: Seq<u64>| is_topo_order(nodes, links2, o);
        assert(links2.contains_key(lid));
        assert forall|l: u64| #[trigger] links.contains_key(l) implies precedes(o, links[l].from.0, links[l].to.0) by {
            assert(links2.contains_key(l));
        }
        assert(is_topo_order(nodes, links, o) && precedes(o, link.from.0, link.to.0));
    }
    if acyclic_with(nodes, links, link) {
        let o = choose|o: Seq<u64>| is_topo_order(nodes, links, o) && precedes(o, link.from.0, link.to.0);
        assert forall|l: u64| #[trigger] links2.contains_key(l) implies precedes(o, links2[l].from.0, links2[l].to.0) by {
            if l != lid {
                assert(links.contains_key(l));
            }
        }
        assert(is_topo_order(nodes, links2, o));
    }
}

/// Every link ends at a node of the graph.
pub open spec fn targets_exist(nodes: Map<u64, Node>, links: Map<u64, Link>) -> bool {
    forall|l: u64| #[trigger] links.contains_key(l) ==> nodes.contains_key(links[l].to.0)
}

/// Links among `ls` that enter `target` from a node not in `done`.
pub open spec fn pending_in(links: Map<u64, Link>, ls: Seq<u64>, target: u64, done: Set<u64>) -> nat
    decreases ls.len(),
{
    if ls.len() == 0 {
        0
    } else {
        pending_in(links, ls.drop_last(), target, done) + if links[ls.last()].to.0 == target
            && !done.contains(links[ls.last()].from.0) {
            1nat
        } else {
            0nat
        }
    }
}

/// Links among `ls` that go from `src` into `target`.
pub open spec fn links_between(links: Map<u64, Link>, ls: Seq<u64>, src: u64, target: u64) -> nat
    decreases ls.len(),
{
    if ls.len() == 0 {
        0
    } else {
        links_between(links, ls.drop_last(), src, target) + if links[ls.last()].to.0 == target
            && links[ls.last()].from.0 == src {
            1nat
        } else {
            0nat
        }
    }
}

pub proof fn lemma_pending_take_step(links: Map<u64, Link>, ls: Seq<u64>, j: int, target: u64, done: Set<u64>)
    requires
        0 <= j < ls.len(),
    ensures
        pending_in(links, ls.take(j + 1), target, done) == pending_in(links, ls.take(j), target, done)
            + if links[ls[j]].to.0 == target && !done.contains(links[ls[j]].from.0) {
            1nat
        } else {
            0nat
        },
{
    assert(ls.take(j + 1).drop_last() =~= ls.take(j));
}

pub proof fn lemma_between_take_step(links: Map<u64, Link>, ls: Seq<u64>, j: int, src: u64, target: u64)
    requires
        0 <= j < ls.len(),
    ensures
        links_between(links, ls.take(j + 1), src, target) == links_between(links, ls.take(j), src, target)
            + if links[ls[j]].to.0 == target && links[ls[j]].from.0 == src {
            1nat
        } else {
            0nat
        },
{
    assert(ls.take(j + 1).drop_last() =~= ls.take(j));
}

pub proof fn lemma_pending_le_len(links: Map<u64, Link>, ls: Seq<u64>, target: u64, done: Set<u64>)
    ensures
        pending_in(links, ls, target, done) <= ls.len(),
    decreases ls.len(),
{
    if ls.len() > 0 {
        lemma_pending_le_len(links, ls.drop_last(), target, done);
    }
}

pub proof fn lemma_between_prefix(links: Map<u64, Link>, ls: Seq<u64>, j: int, src: u64, target: u64)
    requires
        0 <= j <= ls.len(),
    ensures
        links_between(links, ls.take(j), src, target) <= links_between(links, ls, src, target),
    decreases ls.len() - j,
{
    if j < ls.len() {
        lemma_between_take_step(links, ls, j, src, target);
        lemma_between_prefix(links, ls, j + 1, src, target);
    } else {
        assert(ls.take(j) =~= ls);
    }
}

/// Marking `src` done removes exactly the links from `src` from the pending count.
pub proof fn lemma_pending_split(links: Map<u64, Link>, ls: Seq<u64>, target: u64, done: Set<u64>, src: u64)
    requires
        !done.contains(src),
    ensures
        pending_in(links, ls, target, done) == pending_in(links, ls, target, done.insert(src))
            + links_between(links, ls, src, target),
    decreases ls.len(),
{
    if ls.len() > 0 {
        lemma_pending_split(links, ls.drop_last(), target, done, src);
    }
}

/// No pending link into `target`: every link into it comes from a done node.
pub proof fn lemma_pending_zero(links: Map<u64, Link>, ls: Seq<u64>, target: u64, done: Set<u64>, k: int)
    requires
        pending_in(links, ls, target, done) == 0,
        0 <= k < ls.len(),
        links[ls[k]].to.0 == target,
    ensures
        done.contains(links[ls[k]].from.0),
    decreases ls.len(),
{
    if k < ls.len() - 1 {
        assert(ls.drop_last()[k] == ls[k]);
        lemma_pending_zero(links, ls.drop_last(), target, done, k);
    }
}

/// A pending link into `target` is a link from a node not done.
pub proof fn lemma_pending_pos(links: Map<u64, Link>, ls: Seq<u64>, target: u64, done: Set<u64>) -> (k: int)
    requires
        pending_in(links, ls, target, done) > 0,
    ensures
        0 <= k < ls.len(),
        links[ls[k]].to.0 == target,
        !done.contains(links[ls[k]].from.0),
    decreases ls.len(),
{
    if pending_in(links, ls.drop_last(), target, done) > 0 {
        let k = lemma_pending_pos(links, ls.drop_last(), target, done);
        assert(ls.drop_last()[k] == ls[k]);
        k
    } else {
        ls.len() - 1
    }
}

/// The first position of `s` whose element is outside `d`, when there is one.
pub proof fn lemma_first_outside(s: Seq<u64>, d: Set<u64>, i: int) -> (m: int)
    requires
        0 <= i < s.len(),
        !d.contains(s[i]),
    ensures
        0 <= m <= i,
        !d.contains(s[m]),
        forall|p: int| 0 <= p < m ==> d.contains(#[trigger] s[p]),
    decreases i,
{
    if forall|p: int| 0 <= p < i ==> d.contains(#[trigger] s[p]) {
        i
    } else {
        let p = choose|p: int| 0 <= p < i && !d.contains(#[trigger] s[p]);
        lemma_first_outside(s, d, p)
    }
}

} // verus!
