use vstd::prelude::*;
use crate::graph::{Link, Node, NodeID};
use crate::order::is_topo_order;

verus! {

/// Index of a buffer in the engine's pool. Slot 0 is silence.
pub type SlotIndex = usize;

/// Before a node runs, the engine adds the buffers of `source_slots` into
/// the scratch buffer `target_scratch_slot`.
#[derive(Debug, Clone)]
pub struct SummingCommand {
    pub target_scratch_slot: SlotIndex,
    pub source_slots: Vec<SlotIndex>,
}

/// One node's turn in the schedule.
pub struct ScheduleStep {
    pub node_id: NodeID,
    /// Fan-in sums to perform before the node runs.
    pub prep_sums: Vec<SummingCommand>,
    /// One buffer per input socket: silence when unconnected, the source's
    /// buffer when fed by one link, a scratch sum when fed by several.
    pub input_slots: Vec<SlotIndex>,
    /// One buffer per output socket.
    pub output_slots: Vec<SlotIndex>,
}

/// The render schedule of a project's graph.
pub struct CompiledGraph {
    pub steps: Vec<ScheduleStep>,
    pub buffer_count: usize,
    pub master_output_slot: SlotIndex,
}

/// Outputs of the nodes listed in `s`.
pub open spec fn out_total(nodes: Map<u64, Node>, s: Seq<u64>) -> nat
    decreases s.len(),
{
    if s.len() == 0 {
        0
    } else {
        out_total(nodes, s.drop_last()) + nodes[s.last()].outputs@.len()
    }
}

/// Inputs of the nodes listed in `s`.
pub open spec fn in_total(nodes: Map<u64, Node>, s: Seq<u64>) -> nat
    decreases s.len(),
{
    if s.len() == 0 {
        0
    } else {
        in_total(nodes, s.drop_last()) + nodes[s.last()].inputs@.len()
    }
}

/// The buffer of output socket `sock`: outputs are numbered from 1 in the
/// order `o`, node after node.
pub open spec fn slot_of(nodes: Map<u64, Node>, o: Seq<u64>, sock: (NodeID, usize)) -> int {
    1 + out_total(nodes, o.take(o.index_of(sock.0))) + sock.1
}

/// The links into input `i` of node `n`.
pub open spec fn feeders(links: Map<u64, Link>, n: NodeID, i: int) -> Set<u64> {
    links.dom().filter(|l: u64| links[l].to.0 == n && links[l].to.1 == i)
}

/// `srcs` lists the source buffers of the links in `f`, each link once.
pub open spec fn lists_sources(nodes: Map<u64, Node>, links: Map<u64, Link>, o: Seq<u64>, f: Set<u64>, srcs: Seq<SlotIndex>) -> bool {
    exists|fs: Seq<u64>| {
        &&& fs.no_duplicates()
        &&& fs.to_set() == f
        &&& srcs.len() == fs.len()
        &&& forall|c: int| 0 <= c < fs.len() ==> #[trigger] srcs[c] == slot_of(nodes, o, links[fs[c]].from)
    }
}

/// Summing commands of the steps before step `k`.
pub open spec fn sums_before(steps: Seq<ScheduleStep>, k: int) -> nat
    decreases k,
{
    if k <= 0 {
        0
    } else {
        sums_before(steps, k - 1) + steps[k - 1].prep_sums@.len()
    }
}

/// Input `i` of node `n` reads what its links carry: silence when it has
/// none, the source's buffer when it has one, and otherwise a scratch buffer
/// that one of `sums` fills from all its sources.
pub open spec fn input_routed(
    nodes: Map<u64, Node>,
    links: Map<u64, Link>,
    o: Seq<u64>,
    input_slots: Seq<SlotIndex>,
    sums: Seq<SummingCommand>,
    n: NodeID,
    i: int,
) -> bool {
    let f = feeders(links, n, i);
    if f.len() == 0 {
        input_slots[i] == 0
    } else if f.len() == 1 {
        input_slots[i] == slot_of(nodes, o, links[f.choose()].from)
    } else {
        exists|c: int| 0 <= c < sums.len()
            && #[trigger] sums[c].target_scratch_slot == input_slots[i]
            && lists_sources(nodes, links, o, f, sums[c].source_slots@)
    }
}

/// Inputs of node `n` before input `i` that several links feed.
pub open spec fn fanin_before(links: Map<u64, Link>, n: NodeID, i: int) -> nat
    decreases i,
{
    if i <= 0 {
        0
    } else {
        fanin_before(links, n, i - 1) + (if feeders(links, n, i - 1).len() >= 2 { 1nat } else { 0nat })
    }
}

/// Node `o[k]` runs as `step`: its outputs take consecutive slots, each
/// input reads its links, and its summing commands take the scratch slots
/// from `first_scratch` on, one per input fed by several links, in the order
/// of the inputs.
pub open spec fn step_matches(
    nodes: Map<u64, Node>,
    links: Map<u64, Link>,
    o: Seq<u64>,
    step: ScheduleStep,
    k: int,
    first_scratch: int,
) -> bool {
    let n = o[k];
    &&& step.node_id == n
    &&& step.output_slots@.len() == nodes[n].outputs@.len()
    &&& forall|i: int| 0 <= i < step.output_slots@.len() ==> #[trigger] step.output_slots@[i] == slot_of(nodes, o, (n, i as usize))
    &&& step.input_slots@.len() == nodes[n].inputs@.len()
    &&& forall|i: int| 0 <= i < step.input_slots@.len() ==> #[trigger] input_routed(nodes, links, o, step.input_slots@, step.prep_sums@, n, i)
    &&& forall|c: int| 0 <= c < step.prep_sums@.len() ==> #[trigger] step.prep_sums@[c].target_scratch_slot == first_scratch + c
    &&& forall|c: int| 0 <= c < step.prep_sums@.len() ==> #[trigger] sums_an_input(links, n, step.input_slots@, step.prep_sums@[c].target_scratch_slot)
    &&& step.prep_sums@.len() == fanin_before(links, n, nodes[n].inputs@.len() as int)
    &&& forall|i: int| 0 <= i < step.input_slots@.len() && #[trigger] feeders(links, n, i).len() >= 2
        ==> step.input_slots@[i] == first_scratch + fanin_before(links, n, i)
}

/// Some input of node `n` fed by several links reads buffer `target`.
pub open spec fn sums_an_input(links: Map<u64, Link>, n: NodeID, input_slots: Seq<SlotIndex>, target: SlotIndex) -> bool {
    exists|i: int| 0 <= i < input_slots.len() && #[trigger] input_slots[i] == target && feeders(links, n, i).len() >= 2
}

/// `cg` is the schedule of the graph in node order `o`: one step per node in
/// that order, scratch slots numbered after every output slot, step after
/// step, and the master's first output as the mix.
pub open spec fn schedule_matches(nodes: Map<u64, Node>, links: Map<u64, Link>, o: Seq<u64>, master: NodeID, cg: CompiledGraph) -> bool {
    &&& cg.steps@.len() == o.len()
    &&& forall|k: int| 0 <= k < o.len() ==> #[trigger] step_matches(nodes, links, o, cg.steps@[k], k,
        (1 + out_total(nodes, o) + sums_before(cg.steps@, k)) as int)
    &&& cg.buffer_count == 1 + out_total(nodes, o) + sums_before(cg.steps@, o.len() as int)
    &&& cg.master_output_slot == slot_of(nodes, o, (master, 0))
}

/// The sum of `w` over the nodes listed in `s`.
pub open spec fn node_total(w: spec_fn(u64) -> nat, s: Seq<u64>) -> nat
    decreases s.len(),
{
    if s.len() == 0 {
        0
    } else {
        node_total(w, s.drop_last()) + w(s.last())
    }
}

/// The number of outputs of each node.
pub open spec fn outputs_of(nodes: Map<u64, Node>) -> spec_fn(u64) -> nat {
    |n: u64| nodes[n].outputs@.len()
}

/// The number of inputs of each node that several links feed.
pub open spec fn fanin_of(nodes: Map<u64, Node>, links: Map<u64, Link>) -> spec_fn(u64) -> nat {
    |n: u64| fanin_before(links, n, nodes[n].inputs@.len() as int)
}

/// The buffers that the schedule of a graph takes: the silent one, one per
/// output socket, and one scratch buffer per input fed by several links.
pub open spec fn schedule_size(nodes: Map<u64, Node>, links: Map<u64, Link>) -> nat {
    let s = choose|s: Seq<u64>| s.no_duplicates() && s.to_set() == nodes.dom();
    1 + node_total(outputs_of(nodes), s) + node_total(fanin_of(nodes, links), s)
}

/// The total over two lists end to end is the sum of their totals.
pub proof fn lemma_node_total_concat(w: spec_fn(u64) -> nat, a: Seq<u64>, b: Seq<u64>)
    ensures
        node_total(w, a + b) == node_total(w, a) + node_total(w, b),
    decreases b.len(),
{
    if b.len() == 0 {
        assert(a + b =~= a);
    } else {
        lemma_node_total_concat(w, a, b.drop_last());
        assert((a + b).drop_last() =~= a + b.drop_last());
        assert((a + b).last() == b.last());
    }
}

/// Listing the same nodes in another order gives the same total.
pub proof fn lemma_node_total_perm(w: spec_fn(u64) -> nat, a: Seq<u64>, b: Seq<u64>)
    requires
        a.no_duplicates(),
        b.no_duplicates(),
        a.to_set() == b.to_set(),
    ensures
        node_total(w, a) == node_total(w, b),
    decreases a.len(),
{
    if a.len() == 0 {
        if b.len() > 0 {
            assert(b.to_set().contains(b[0]));
        }
        assert(b =~= Seq::<u64>::empty());
    } else {
        let x = a.last();
        let a1 = a.drop_last();
        assert(a.to_set().contains(x));
        assert(b.contains(x));
        let j = b.index_of(x);
        let b2 = b.take(j) + b.skip(j + 1);
        assert forall|y: u64| a1.to_set().contains(y) <==> b2.to_set().contains(y) by {
            if a1.to_set().contains(y) {
                let i = choose|i: int| 0 <= i < a1.len() && a1[i] == y;
                assert(a[i] == y);
                assert(y != x);
                assert(a.to_set().contains(y));
                let q = choose|q: int| 0 <= q < b.len() && b[q] == y;
                assert(q != j);
                if q < j {
                    assert(b2[q] == y);
                } else {
                    assert(b2[q - 1] == y);
                }
            }
            if b2.to_set().contains(y) {
                let q = choose|q: int| 0 <= q < b2.len() && b2[q] == y;
                let q2 = if q < j { q } else { q + 1 };
                assert(b[q2] == y);
                assert(q2 != j);
                assert(y != x);
                assert(b.to_set().contains(y));
                let i = choose|i: int| 0 <= i < a.len() && a[i] == y;
                assert(i != a.len() - 1);
                assert(a1[i] == y);
            }
        }
        assert(a1.to_set() =~= b2.to_set());
        assert(b2.no_duplicates()) by {
            assert forall|p: int, q: int| 0 <= p < b2.len() && 0 <= q < b2.len() && p != q implies b2[p] != b2[q] by {
                let p2 = if p < j { p } else { p + 1 };
                let q2 = if q < j { q } else { q + 1 };
                assert(b2[p] == b[p2]);
                assert(b2[q] == b[q2]);
            }
        }
        lemma_node_total_perm(w, a1, b2);
        lemma_node_total_concat(w, b.take(j), b.skip(j + 1));
        assert(b =~= b.take(j) + b.skip(j));
        lemma_node_total_concat(w, b.take(j), b.skip(j));
        assert(b.skip(j) =~= seq![x] + b.skip(j + 1));
        lemma_node_total_concat(w, seq![x], b.skip(j + 1));
        assert(seq![x].drop_last() =~= Seq::<u64>::empty());
        assert(node_total(w, Seq::<u64>::empty()) == 0);
        assert(node_total(w, seq![x]) == w(x));
        assert(node_total(w, a) == node_total(w, a1) + w(x));
        assert(node_total(w, b) == node_total(w, b.take(j)) + w(x) + node_total(w, b.skip(j + 1)));
    }
}

/// The outputs of the listed nodes, counted either way.
pub proof fn lemma_out_total_is_node_total(nodes: Map<u64, Node>, s: Seq<u64>)
    ensures
        out_total(nodes, s) == node_total(outputs_of(nodes), s),
    decreases s.len(),
{
    if s.len() > 0 {
        lemma_out_total_is_node_total(nodes, s.drop_last());
    }
}

/// The summing commands of the first `k` steps are the fan-in inputs of the
/// first `k` nodes.
pub proof fn lemma_sums_before_total(nodes: Map<u64, Node>, links: Map<u64, Link>, o: Seq<u64>, steps: Seq<ScheduleStep>, k: int)
    requires
        0 <= k <= o.len(),
        k <= steps.len(),
        forall|q: int| 0 <= q < k ==> #[trigger] steps[q].prep_sums@.len() == fanin_of(nodes, links)(o[q]),
    ensures
        sums_before(steps, k) == node_total(fanin_of(nodes, links), o.take(k)),
    decreases k,
{
    if k > 0 {
        lemma_sums_before_total(nodes, links, o, steps, k - 1);
        assert(o.take(k).drop_last() =~= o.take(k - 1));
        assert(steps[k - 1].prep_sums@.len() == fanin_of(nodes, links)(o[k - 1]));
    }
}

/// Every schedule of a graph takes `schedule_size` buffers, whatever
/// topological order it follows.
pub proof fn lemma_schedule_size(nodes: Map<u64, Node>, links: Map<u64, Link>, o: Seq<u64>, master: NodeID, cg: CompiledGraph)
    requires
        is_topo_order(nodes, links, o),
        schedule_matches(nodes, links, o, master, cg),
    ensures
        cg.buffer_count == schedule_size(nodes, links),
{
    assert forall|q: int| 0 <= q < o.len() implies #[trigger] cg.steps@[q].prep_sums@.len() == fanin_of(nodes, links)(o[q]) by {
        assert(step_matches(nodes, links, o, cg.steps@[q], q, (1 + out_total(nodes, o) + sums_before(cg.steps@, q)) as int));
    }
    lemma_sums_before_total(nodes, links, o, cg.steps@, o.len() as int);
    assert(o.take(o.len() as int) =~= o);
    lemma_out_total_is_node_total(nodes, o);
    let s = choose|s: Seq<u64>| s.no_duplicates() && s.to_set() == nodes.dom();
    assert(s.no_duplicates() && s.to_set() == nodes.dom());
    lemma_node_total_perm(outputs_of(nodes), o, s);
    lemma_node_total_perm(fanin_of(nodes, links), o, s);
}

pub proof fn lemma_sums_before_push(steps: Seq<ScheduleStep>, x: ScheduleStep, k: int)
    requires
        0 <= k <= steps.len(),
    ensures
        sums_before(steps.push(x), k) == sums_before(steps, k),
    decreases k,
{
    if k > 0 {
        lemma_sums_before_push(steps, x, k - 1);
        assert(steps.push(x)[k - 1] == steps[k - 1]);
    }
}

/// Sockets, inputs and outputs together, of the nodes listed in `s`.
pub open spec fn socket_total(nodes: Map<u64, Node>, s: Seq<u64>) -> nat
    decreases s.len(),
{
    if s.len() == 0 {
        0
    } else {
        socket_total(nodes, s.drop_last()) + nodes[s.last()].outputs@.len() + nodes[s.last()].inputs@.len()
    }
}

pub proof fn lemma_socket_total_split(nodes: Map<u64, Node>, s: Seq<u64>)
    ensures
        socket_total(nodes, s) == out_total(nodes, s) + in_total(nodes, s),
    decreases s.len(),
{
    if s.len() > 0 {
        lemma_socket_total_split(nodes, s.drop_last());
    }
}

pub proof fn lemma_socket_total_concat(nodes: Map<u64, Node>, a: Seq<u64>, b: Seq<u64>)
    ensures
        socket_total(nodes, a + b) == socket_total(nodes, a) + socket_total(nodes, b),
    decreases b.len(),
{
    if b.len() == 0 {
        assert(a + b =~= a);
    } else {
        assert((a + b).drop_last() =~= a + b.drop_last());
        lemma_socket_total_concat(nodes, a, b.drop_last());
    }
}

/// A list of distinct nodes drawn from another list of distinct nodes has no
/// more sockets than it.
pub proof fn lemma_socket_total_sub(nodes: Map<u64, Node>, s: Seq<u64>, t: Seq<u64>)
    requires
        s.no_duplicates(),
        t.no_duplicates(),
        forall|i: int| 0 <= i < s.len() ==> t.contains(#[trigger] s[i]),
    ensures
        socket_total(nodes, s) <= socket_total(nodes, t),
    decreases s.len(),
{
    if s.len() > 0 {
        let x = s.last();
        assert(t.contains(s[s.len() - 1]));
        let j = t.index_of(x);
        let t2 = t.remove(j);
        assert(t =~= t.take(j) + seq![x] + t.skip(j + 1));
        assert(t2 =~= t.take(j) + t.skip(j + 1));
        lemma_socket_total_concat(nodes, t.take(j) + seq![x], t.skip(j + 1));
        lemma_socket_total_concat(nodes, t.take(j), seq![x]);
        lemma_socket_total_concat(nodes, t.take(j), t.skip(j + 1));
        assert(seq![x].drop_last() =~= Seq::<u64>::empty());
        assert(t2.no_duplicates()) by {
            assert forall|a: int, b: int| 0 <= a < b < t2.len() implies t2[a] != t2[b] by {
                let a2 = if a < j { a } else { a + 1 };
                let b2 = if b < j { b } else { b + 1 };
                assert(t2[a] == t[a2] && t2[b] == t[b2]);
            }
        }
        let s2 = s.drop_last();
        assert forall|i: int| 0 <= i < s2.len() implies t2.contains(#[trigger] s2[i]) by {
            assert(s2[i] == s[i]);
            assert(s[i] != x);
            assert(t.contains(s[i]));
            let p = t.index_of(s[i]);
            assert(p != j);
            if p < j {
                assert(t2[p] == s[i]);
            } else {
                assert(t2[p - 1] == s[i]);
            }
        }
        lemma_socket_total_sub(nodes, s2, t2);
    }
}

pub proof fn lemma_out_total_step(nodes: Map<u64, Node>, s: Seq<u64>, k: int)
    requires
        0 <= k < s.len(),
    ensures
        out_total(nodes, s.take(k + 1)) == out_total(nodes, s.take(k)) + nodes[s[k]].outputs@.len(),
{
    assert(s.take(k + 1).drop_last() =~= s.take(k));
}

pub proof fn lemma_in_total_step(nodes: Map<u64, Node>, s: Seq<u64>, k: int)
    requires
        0 <= k < s.len(),
    ensures
        in_total(nodes, s.take(k + 1)) == in_total(nodes, s.take(k)) + nodes[s[k]].inputs@.len(),
{
    assert(s.take(k + 1).drop_last() =~= s.take(k));
}

pub proof fn lemma_out_total_prefix(nodes: Map<u64, Node>, s: Seq<u64>, a: int, b: int)
    requires
        0 <= a <= b <= s.len(),
    ensures
        out_total(nodes, s.take(a)) <= out_total(nodes, s.take(b)),
    decreases b - a,
{
    if a < b {
        lemma_out_total_step(nodes, s, b - 1);
        lemma_out_total_prefix(nodes, s, a, b - 1);
    }
}

pub proof fn lemma_in_total_prefix(nodes: Map<u64, Node>, s: Seq<u64>, a: int, b: int)
    requires
        0 <= a <= b <= s.len(),
    ensures
        in_total(nodes, s.take(a)) <= in_total(nodes, s.take(b)),
    decreases b - a,
{
    if a < b {
        lemma_in_total_step(nodes, s, b - 1);
        lemma_in_total_prefix(nodes, s, a, b - 1);
    }
}

} // verus!
