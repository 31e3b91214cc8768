use vstd::prelude::*;
use crate::error::EngineError;
use crate::graph::{index_of, link_valid, Link, Node, NodeID};
use crate::order::is_topo_order;
use crate::project::ProjectData;
use crate::schedule::{
    fanin_before, feeders, in_total, input_routed, lemma_in_total_prefix, lemma_in_total_step,
    lemma_out_total_prefix, lemma_out_total_step, lemma_sums_before_push, lists_sources,
    lemma_schedule_size, out_total, schedule_matches, schedule_size, socket_total, lemma_socket_total_split, lemma_socket_total_sub, slot_of, step_matches, sums_an_input, sums_before, CompiledGraph, ScheduleStep,
    SlotIndex, SummingCommand,
};
use crate::store::{link_store_get, link_store_keys, node_store_get, node_store_keys};

verus! {

/// In a sequence without duplicates, `index_of` finds the one position.
pub proof fn lemma_index_of_unique(s: Seq<u64>, p: int)
    requires
        s.no_duplicates(),
        0 <= p < s.len(),
    ensures
        s.index_of(s[p]) == p,
{
    assert(s.contains(s[p]));
    let q = s.index_of(s[p]);
    assert(s[q] == s[p]);
}

/// The context that compiling one step works in: the graph is well formed,
/// `order` is a topological order of it, `bases[k]` is the first output slot
/// of `order[k]`, and `lids` lists every link once.
pub open spec fn compile_context(p: ProjectData, order: Seq<u64>, bases: Seq<usize>, lids: Seq<u64>) -> bool {
    let nodes = p.graph.node_map();
    let links = p.graph.link_map();
    &&& p.compilable()
    &&& p.graph.wf()
    &&& is_topo_order(nodes, links, order)
    &&& bases.len() == order.len()
    &&& forall|k: int| 0 <= k < order.len() ==> #[trigger] bases[k] == 1 + out_total(nodes, order.take(k))
    &&& 1 + out_total(nodes, order) + in_total(nodes, order) <= usize::MAX
    &&& lids.no_duplicates()
    &&& forall|i: int| 0 <= i < lids.len() ==> links.contains_key(#[trigger] lids[i])
    &&& forall|l: u64| #[trigger] links.contains_key(l) ==> lids.contains(l)
}

impl ProjectData {
    /// What compiling the graph needs: slot-map keys, links between existing
    /// sockets, and a master node with an output.
    pub open spec fn compilable(&self) -> bool {
        &&& self.graph.keys_valid()
        &&& forall|l: u64| #[trigger] self.graph.link_map().contains_key(l)
            ==> link_valid(self.graph.node_map(), self.graph.link_map()[l])
        &&& self.graph.node_map().contains_key(self.master_node_id)
        &&& self.graph.node_map()[self.master_node_id].outputs@.len() >= 1
    }

    /// Any list of distinct nodes has few enough sockets to number them all
    /// in a `usize`, with the silent slot besides.
    pub open spec fn slots_fit(&self) -> bool {
        forall|s: Seq<u64>| s.no_duplicates() && (forall|i: int| 0 <= i < s.len() ==> self.graph.node_map().contains_key(#[trigger] s[i]))
            ==> 1 + #[trigger] out_total(self.graph.node_map(), s) + in_total(self.graph.node_map(), s) <= usize::MAX
    }

    /// Counts the sockets of all nodes and the silent slot, and answers
    /// whether that fits in a `usize`.
    pub fn slots_fit_exec(&self) -> (b: bool)
        requires
            self.graph.keys_valid(),
        ensures
            b == self.slots_fit(),
    {
        let ghost nodes = self.graph.node_map();
        let ids = node_store_keys(&self.graph.nodes);
        let mut total: usize = 1;
        let mut k: usize = 0;
        while k < ids.len()
            invariant
                nodes == self.graph.node_map(),
                self.graph.keys_valid(),
                ids@.no_duplicates(),
                k <= ids@.len(),
                forall|i: int| 0 <= i < ids@.len() ==> nodes.contains_key(#[trigger] ids@[i]),
                total == 1 + socket_total(nodes, ids@.take(k as int)),
            decreases ids@.len() - k,
        {
            let node = match node_store_get(&self.graph.nodes, ids[k]) {
                Some(node) => node,
                None => {
                    assert(false);
                    return false;
                },
            };
            proof {
                assert(ids@.take(k + 1).drop_last() =~= ids@.take(k as int));
            }
            let a = node.outputs.len();
            let b = node.inputs.len();
            proof {
                assert(ids@.take(k + 1).no_duplicates()) by {
                    assert forall|x: int, y: int| 0 <= x < y < k + 1 implies #[trigger] ids@.take(k + 1)[x] != #[trigger] ids@.take(k + 1)[y] by {
                        assert(ids@[x] != ids@[y]);
                    }
                }
                assert forall|i: int| 0 <= i < k + 1 implies ids@.contains(#[trigger] ids@.take(k + 1)[i]) by {
                    assert(ids@[i] == ids@.take(k + 1)[i]);
                }
                lemma_socket_total_sub(nodes, ids@.take(k + 1), ids@);
                lemma_socket_total_split(nodes, ids@);
            }
            if a > usize::MAX - total || b > usize::MAX - (total + a) {
                proof {
                    assert forall|i: int| 0 <= i < ids@.len() implies nodes.contains_key(#[trigger] ids@[i]) by {}
                    assert(!(1 + out_total(nodes, ids@) + in_total(nodes, ids@) <= usize::MAX));
                }
                return false;
            }
            let t = total + a;
            total = t + b;
            k = k + 1;
        }
        proof {
            assert(ids@.take(ids@.len() as int) =~= ids@);
            assert forall|s: Seq<u64>| s.no_duplicates() && (forall|i: int| 0 <= i < s.len() ==> nodes.contains_key(#[trigger] s[i]))
                implies 1 + #[trigger] out_total(nodes, s) + in_total(nodes, s) <= usize::MAX by {
                assert forall|i: int| 0 <= i < s.len() implies ids@.contains(#[trigger] s[i]) by {
                    assert(nodes.contains_key(s[i]));
                }
                lemma_socket_total_sub(nodes, s, ids@);
                lemma_socket_total_split(nodes, s);
            }
        }
        true
    }

    /// The buffer slot of output `j` of the node at position `p` of the order.
    pub(crate) fn source_slot(&self, order: &Vec<u64>, bases: &Vec<usize>, lids: &Vec<u64>, m: NodeID, j: usize) -> (r: SlotIndex)
        requires
            compile_context(*self, order@, bases@, lids@),
            self.graph.node_map().contains_key(m),
            j < self.graph.node_map()[m].outputs@.len(),
        ensures
            r == slot_of(self.graph.node_map(), order@, (m, j)),
    {
        let ghost nodes = self.graph.node_map();
        proof {
            assert(order@.to_set().contains(m));
        }
        let p = match index_of(order, m) {
            Some(p) => p,
            None => {
                assert(false);
                return 0;
            },
        };
        proof {
            lemma_index_of_unique(order@, p as int);
            lemma_out_total_step(nodes, order@, p as int);
            lemma_out_total_prefix(nodes, order@, p + 1, order@.len() as int);
            assert(order@.take(order@.len() as int) =~= order@);
        }
        bases[p] + j
    }

    /// The buffers that feed input `i` of node `n`, one per link, in the
    /// order of `lids`.
    pub(crate) fn input_sources(&self, order: &Vec<u64>, bases: &Vec<usize>, lids: &Vec<u64>, n: NodeID, i: usize) -> (srcs: Vec<SlotIndex>)
        requires
            compile_context(*self, order@, bases@, lids@),
        ensures
            lists_sources(self.graph.node_map(), self.graph.link_map(), order@, feeders(self.graph.link_map(), n, i as int), srcs@),
    {
        let ghost nodes = self.graph.node_map();
        let ghost links = self.graph.link_map();
        let mut srcs: Vec<SlotIndex> = Vec::new();
        let ghost mut fs: Seq<u64> = Seq::empty();
        let mut j: usize = 0;
        while j < lids.len()
            invariant
                compile_context(*self, order@, bases@, lids@),
                nodes == self.graph.node_map(),
                links == self.graph.link_map(),
                j <= lids@.len(),
                fs.no_duplicates(),
                forall|x: u64| fs.contains(x) <==> (lids@.take(j as int).contains(x) && links[x].to.0 == n && links[x].to.1 == i),
                srcs@.len() == fs.len(),
                forall|c: int| 0 <= c < fs.len() ==> #[trigger] srcs@[c] == slot_of(nodes, order@, links[fs[c]].from),
            decreases lids@.len() - j,
        {
            let lid = lids[j];
            proof {
                assert(lids@.take(j + 1) =~= lids@.take(j as int).push(lid));
                assert(!lids@.take(j as int).contains(lid)) by {
                    if lids@.take(j as int).contains(lid) {
                        let q = lids@.take(j as int).index_of(lid);
                        assert(lids@[q] == lids@[j as int]);
                    }
                }
                assert(links.contains_key(lid));
            }
            let l = match link_store_get(&self.graph.links, lid) {
                Some(l) => l,
                None => {
                    assert(false);
                    return srcs;
                },
            };
            let ghost fs0 = fs;
            if l.to.0 == n && l.to.1 == i {
                proof {
                    assert(link_valid(nodes, l));
                }
                let slot = self.source_slot(order, bases, lids, l.from.0, l.from.1);
                srcs.push(slot);
                proof {
                    fs = fs.push(lid);
                    assert(!fs0.contains(lid));
                }
            }
            proof {
                assert forall|x: u64| fs.contains(x) <==> (lids@.take(j + 1).contains(x) && links[x].to.0 == n && links[x].to.1 == i) by {
                    if lids@.take(j + 1).contains(x) && x != lid {
                        let q = lids@.take(j + 1).index_of(x);
                        assert(lids@.take(j as int)[q] == x);
                    }
                    if lids@.take(j as int).contains(x) {
                        let q = lids@.take(j as int).index_of(x);
                        assert(lids@.take(j + 1)[q] == x);
                    }
                    if x == lid {
                        assert(lids@.take(j + 1)[j as int] == x);
                    }
                    if fs.contains(x) && x != lid {
                        let q = fs.index_of(x);
                        assert(fs0[q] == x);
                    }
                    if fs0.contains(x) {
                        let q = fs0.index_of(x);
                        assert(fs[q] == x);
                    }
                    if x == lid && fs.len() > fs0.len() {
                        assert(fs[fs.len() - 1] == x);
                    }
                }
            }
            j = j + 1;
        }
        proof {
            assert(lids@.take(lids@.len() as int) =~= lids@);
            assert(fs.to_set() =~= feeders(links, n, i as int));
        }
        srcs
    }

    /// The schedule step of the node at position `k` of the order. Its
    /// summing commands take the scratch slots from `count` on.
    fn compile_step(&self, order: &Vec<u64>, bases: &Vec<usize>, lids: &Vec<u64>, k: usize, count: &mut usize) -> (step: ScheduleStep)
        requires
            compile_context(*self, order@, bases@, lids@),
            k < order@.len(),
            *old(count) <= 1 + out_total(self.graph.node_map(), order@) + in_total(self.graph.node_map(), order@.take(k as int)),
        ensures
            step_matches(self.graph.node_map(), self.graph.link_map(), order@, step, k as int, *old(count) as int),
            *final(count) == *old(count) + step.prep_sums@.len(),
            *final(count) <= 1 + out_total(self.graph.node_map(), order@) + in_total(self.graph.node_map(), order@.take(k + 1)),
    {
        let ghost nodes = self.graph.node_map();
        let ghost links = self.graph.link_map();
        let ghost count0 = *count;
        let n = order[k];
        proof {
            assert(order@.to_set().contains(n));
            lemma_in_total_step(nodes, order@, k as int);
            lemma_in_total_prefix(nodes, order@, k + 1, order@.len() as int);
            assert(order@.take(order@.len() as int) =~= order@);
        }
        let node = match node_store_get(&self.graph.nodes, n) {
            Some(node) => node,
            None => {
                assert(false);
                return ScheduleStep { node_id: n, prep_sums: Vec::new(), input_slots: Vec::new(), output_slots: Vec::new() };
            },
        };
        let nin = node.inputs.len();
        let nout = node.outputs.len();
        let mut output_slots: Vec<SlotIndex> = Vec::new();
        let mut i: usize = 0;
        while i < nout
            invariant
                compile_context(*self, order@, bases@, lids@),
                nodes == self.graph.node_map(),
                nodes.contains_key(n),
                nout == nodes[n].outputs@.len(),
                i <= nout,
                output_slots@.len() == i,
                forall|q: int| 0 <= q < i ==> #[trigger] output_slots@[q] == slot_of(nodes, order@, (n, q as usize)),
            decreases nout - i,
        {
            let slot = self.source_slot(order, bases, lids, n, i);
            output_slots.push(slot);
            i = i + 1;
        }
        let mut input_slots: Vec<SlotIndex> = Vec::new();
        let mut sums: Vec<SummingCommand> = Vec::new();
        let mut i: usize = 0;
        while i < nin
            invariant
                compile_context(*self, order@, bases@, lids@),
                nodes == self.graph.node_map(),
                links == self.graph.link_map(),
                nodes.contains_key(n),
                n == order@[k as int],
                nin == nodes[n].inputs@.len(),
                nout == nodes[n].outputs@.len(),
                output_slots@.len() == nout,
                forall|q: int| 0 <= q < nout ==> #[trigger] output_slots@[q] == slot_of(nodes, order@, (n, q as usize)),
                i <= nin,
                input_slots@.len() == i,
                *count == count0 + sums@.len(),
                sums@.len() == fanin_before(links, n, i as int),
                fanin_before(links, n, i as int) <= i,
                forall|q: int| 0 <= q < i && #[trigger] feeders(links, n, q).len() >= 2
                    ==> input_slots@[q] == count0 + fanin_before(links, n, q),
                count0 + nin <= 1 + out_total(nodes, order@) + in_total(nodes, order@.take(k + 1)),
                1 + out_total(nodes, order@) + in_total(nodes, order@.take(k + 1)) <= usize::MAX,
                forall|c: int| 0 <= c < sums@.len() ==> #[trigger] sums@[c].target_scratch_slot == count0 + c,
                forall|q: int| 0 <= q < i ==> #[trigger] input_routed(nodes, links, order@, input_slots@, sums@, n, q),
                forall|c: int| 0 <= c < sums@.len() ==> #[trigger] sums_an_input(links, n, input_slots@, sums@[c].target_scratch_slot),
            decreases nin - i,
        {
            let srcs = self.input_sources(order, bases, lids, n, i);
            let ghost f = feeders(links, n, i as int);
            let ghost fs = choose|fs: Seq<u64>| {
                &&& fs.no_duplicates()
                &&& fs.to_set() == f
                &&& srcs@.len() == fs.len()
                &&& forall|c: int| 0 <= c < fs.len() ==> #[trigger] srcs@[c] == slot_of(nodes, order@, links[fs[c]].from)
            };
            proof {
                fs.unique_seq_to_set();
            }
            let ghost slots0 = input_slots@;
            let ghost sums0 = sums@;
            if srcs.len() == 0 {
                input_slots.push(0);
            } else if srcs.len() == 1 {
                proof {
                    assert(f.contains(fs[0]));
                    assert(f.contains(f.choose()));
                    let y = f.choose();
                    assert(fs.contains(y));
                }
                input_slots.push(srcs[0]);
            } else {
                let s = *count;
                *count = s + 1;
                sums.push(SummingCommand { target_scratch_slot: s, source_slots: srcs });
                input_slots.push(s);
                proof {
                    assert(sums@[sums@.len() - 1].source_slots@ == srcs@);
                    assert(lists_sources(nodes, links, order@, f, sums@[sums@.len() - 1].source_slots@));
                }
            }
            proof {
                assert(f.len() == srcs@.len());
                assert(fanin_before(links, n, i + 1) == fanin_before(links, n, i as int)
                    + (if f.len() >= 2 { 1nat } else { 0nat }));
                assert forall|q: int| 0 <= q < i + 1 && #[trigger] feeders(links, n, q).len() >= 2
                    implies input_slots@[q] == count0 + fanin_before(links, n, q) by {
                    if q < i {
                        assert(input_slots@[q] == slots0[q]);
                    }
                }
                assert forall|q: int| 0 <= q < i + 1 implies #[trigger] input_routed(nodes, links, order@, input_slots@, sums@, n, q) by {
                    if q < i {
                        assert(input_routed(nodes, links, order@, slots0, sums0, n, q));
                        assert(input_slots@[q] == slots0[q]);
                        let g = feeders(links, n, q);
                        if g.len() >= 2 {
                            let c = choose|c: int| 0 <= c < sums0.len()
                                && #[trigger] sums0[c].target_scratch_slot == slots0[q]
                                && lists_sources(nodes, links, order@, g, sums0[c].source_slots@);
                            assert(sums@[c] == sums0[c]);
                        }
                    } else if srcs@.len() >= 2 {
                        assert(sums@[sums@.len() - 1].target_scratch_slot == input_slots@[q]);
                    }
                }
                assert forall|c: int| 0 <= c < sums@.len() implies #[trigger] sums_an_input(links, n, input_slots@, sums@[c].target_scratch_slot) by {
                    if c < sums0.len() {
                        assert(sums@[c] == sums0[c]);
                        assert(sums_an_input(links, n, slots0, sums0[c].target_scratch_slot));
                        let q = choose|q: int| 0 <= q < slots0.len()
                            && #[trigger] slots0[q] == sums0[c].target_scratch_slot
                            && feeders(links, n, q).len() >= 2;
                        assert(input_slots@[q] == slots0[q]);
                    } else {
                        assert(f.len() >= 2);
                        assert(input_slots@[i as int] == sums@[c].target_scratch_slot);
                    }
                }
            }
            i = i + 1;
        }
        ScheduleStep { node_id: n, prep_sums: sums, input_slots, output_slots }
    }

    /// Turns the graph into a render schedule: Kahn's order of the nodes, a
    /// buffer slot per output socket (slot 0 is silence), each input bound
    /// to silence, to its one source, or to a scratch slot summed from all
    /// its sources, and the master's first output as the mix. It fails, with
    /// `WouldCreateCycle`, exactly when the links form a cycle.
    pub fn compile_graph(&self) -> (r: Result<CompiledGraph, EngineError>)
        requires
            self.compilable(),
            self.slots_fit(),
        ensures
            r is Ok <==> self.graph.acyclic(),
            match r {
                Ok(cg) => {
                    &&& exists|o: Seq<u64>| is_topo_order(self.graph.node_map(), self.graph.link_map(), o)
                        && schedule_matches(self.graph.node_map(), self.graph.link_map(), o, self.master_node_id, cg)
                    &&& cg.buffer_count == schedule_size(self.graph.node_map(), self.graph.link_map())
                },
                Err(e) => e == EngineError::WouldCreateCycle,
            },
    {
        let ghost nodes = self.graph.node_map();
        let ghost links = self.graph.link_map();
        let order = match self.graph.topo_sort() {
            Ok(o) => o,
            Err(e) => {
                proof {
                    if let EngineError::NodeNotFound(x) = e {
                        let l = choose|l: u64| #[trigger] links.contains_key(l) && links[l].to.0 == x && !nodes.contains_key(x);
                        assert(link_valid(nodes, links[l]));
                    }
                }
                return Err(e);
            },
        };
        proof {
            assert(self.graph.acyclic());
            assert forall|i: int| 0 <= i < order@.len() implies nodes.contains_key(#[trigger] order@[i]) by {
                assert(order@.to_set().contains(order@[i]));
            }
            assert(1 + out_total(nodes, order@) + in_total(nodes, order@) <= usize::MAX);
            assert(order@.take(order@.len() as int) =~= order@);
        }
        let lids = link_store_keys(&self.graph.links);
        let mut bases: Vec<usize> = Vec::new();
        let mut total: usize = 1;
        let mut k: usize = 0;
        while k < order.len()
            invariant
                self.compilable(),
                self.graph.wf(),
                nodes == self.graph.node_map(),
                is_topo_order(nodes, links, order@),
                forall|i: int| 0 <= i < order@.len() ==> nodes.contains_key(#[trigger] order@[i]),
                1 + out_total(nodes, order@) + in_total(nodes, order@) <= usize::MAX,
                order@.take(order@.len() as int) == order@,
                k <= order@.len(),
                bases@.len() == k,
                forall|q: int| 0 <= q < k ==> #[trigger] bases@[q] == 1 + out_total(nodes, order@.take(q)),
                total == 1 + out_total(nodes, order@.take(k as int)),
            decreases order@.len() - k,
        {
            bases.push(total);
            let node = match node_store_get(&self.graph.nodes, order[k]) {
                Some(node) => node,
                None => {
                    assert(false);
                    return Err(EngineError::WouldCreateCycle);
                },
            };
            proof {
                lemma_out_total_step(nodes, order@, k as int);
                lemma_out_total_prefix(nodes, order@, k + 1, order@.len() as int);
            }
            total = total + node.outputs.len();
            k = k + 1;
        }
        let mut count = total;
        let mut steps: Vec<ScheduleStep> = Vec::new();
        proof {
            assert(order@.take(0) =~= Seq::<u64>::empty());
        }
        let mut k: usize = 0;
        while k < order.len()
            invariant
                compile_context(*self, order@, bases@, lids@),
                nodes == self.graph.node_map(),
                links == self.graph.link_map(),
                k <= order@.len(),
                steps@.len() == k,
                count == 1 + out_total(nodes, order@) + sums_before(steps@, k as int),
                count <= 1 + out_total(nodes, order@) + in_total(nodes, order@.take(k as int)),
                forall|q: int| 0 <= q < k ==> #[trigger] step_matches(nodes, links, order@, steps@[q], q,
                    (1 + out_total(nodes, order@) + sums_before(steps@, q)) as int),
            decreases order@.len() - k,
        {
            let ghost steps0 = steps@;
            let ghost c0 = count;
            let step = self.compile_step(&order, &bases, &lids, k, &mut count);
            steps.push(step);
            proof {
                assert forall|q: int| 0 <= q <= k implies sums_before(steps@, q) == sums_before(steps0, q) by {
                    lemma_sums_before_push(steps0, step, q);
                }
                assert(steps@[k as int] == step);
                assert(sums_before(steps@, k + 1) == sums_before(steps@, k as int) + step.prep_sums@.len());
                assert forall|q: int| 0 <= q < k + 1 implies #[trigger] step_matches(nodes, links, order@, steps@[q], q,
                    (1 + out_total(nodes, order@) + sums_before(steps@, q)) as int) by {
                    lemma_sums_before_push(steps0, step, q);
                    if q < k {
                        assert(steps@[q] == steps0[q]);
                        assert(step_matches(nodes, links, order@, steps0[q], q,
                            (1 + out_total(nodes, order@) + sums_before(steps0, q)) as int));
                    } else {
                        assert(c0 == 1 + out_total(nodes, order@) + sums_before(steps@, q));
                    }
                }
            }
            k = k + 1;
        }
        let master_output_slot = self.source_slot(&order, &bases, &lids, self.master_node_id, 0);
        let cg = CompiledGraph { steps, buffer_count: count, master_output_slot };
        proof {
            assert(schedule_matches(nodes, links, order@, self.master_node_id, cg));
            lemma_schedule_size(nodes, links, order@, self.master_node_id, cg);
        }
        Ok(cg)
    }
}

} // verus!
