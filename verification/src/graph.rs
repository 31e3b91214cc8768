use vstd::prelude::*;
use std::sync::Arc;
use vstd::string::StringExecFns;
use std::sync::atomic::{AtomicU32, Ordering};
use crate::error::EngineError;
use crate::order::{
    acyclic_maps, acyclic_with, is_topo_order, lemma_acyclic_insert, lemma_acyclic_remove_node, lemma_acyclic_within, links_within,
    lemma_acyclic_add_source, lemma_between_prefix, lemma_between_take_step, lemma_first_outside,
    lemma_pending_le_len, lemma_pending_pos, lemma_pending_split, lemma_pending_take_step,
    lemma_pending_zero, links_between, pending_in, precedes, targets_exist,
};
use crate::store::{
    is_key, is_key_exec, link_store, link_store_get, link_store_insert, link_store_keys, link_store_len,
    link_store_new, link_store_remove, node_store, node_store_get, node_store_insert, node_store_keys,
    node_store_len, node_store_new, node_store_remove, node_store_set, Store, SLOT_LIMIT,
};
use crate::kind::SignalKind;
use crate::track::TrackID;

verus! {

/// Identifier of a node in the flow graph.
pub type NodeID = u64;

/// Identifier of a link in the flow graph.
pub type LinkID = u64;

/// Position of a socket in its node's input or output list.
pub type SocketIndex = usize;

/// A typed connection point of a node.
#[derive(Debug, Clone, Copy)]
pub struct Socket {
    pub kind: SignalKind,
    pub name: &'static str,
    pub visible: bool,
}

impl Socket {
    pub fn new(kind: SignalKind, name: &'static str, visible: bool) -> (s: Socket)
        ensures
            s.kind == kind,
            s.name@ == name@,
            s.visible == visible,
    {
        Socket { kind, name, visible }
    }
}

/// A setting that the control side may change while the audio side reads
/// it: the bit pattern of a single-precision number in an atomic cell that
/// every clone shares. What a read returns depends on the other threads, so
/// no contract states it.
#[derive(Debug, Clone)]
pub struct Param(Arc<AtomicU32>);

/// `Arc::clone`: another pointer to the same cell.
#[verifier::external_body]
fn share_cell(a: &Arc<AtomicU32>) -> (r: Arc<AtomicU32>)
    ensures
        r == *a,
{
    Arc::clone(a)
}

impl Param {
    /// A parameter that holds the bit pattern `bits`.
    pub fn new(bits: u32) -> Param {
        Param(Arc::new(AtomicU32::new(bits)))
    }

    /// The bit pattern that the parameter holds at the moment.
    pub fn get(&self) -> u32 {
        self.0.load(Ordering::Relaxed)
    }

    /// Replaces the bit pattern that the parameter holds.
    pub fn set(&self, bits: u32) {
        self.0.store(bits, Ordering::Relaxed);
    }

    /// Another handle on the same cell.
    pub fn share(&self) -> (p: Param)
        ensures
            p == *self,
    {
        Param(share_cell(&self.0))
    }
}

/// What a node does when the schedule runs it.
#[derive(Debug, Clone)]
pub enum NodePayload {
    /// The project's output.
    Master,
    /// Renders the clips of a track.
    TrackReader { track: TrackID, channels: u16 },
    /// Adds all its inputs together.
    Sum,
    /// Filters its input with a one-pole low-pass filter.
    Lowpass { cutoff_hz: Param },
}

impl NodePayload {
    /// The same payload; a filter's copy shares its cutoff cell.
    pub fn duplicate(&self) -> (p: NodePayload)
        ensures
            p == *self,
    {
        match self {
            NodePayload::Master => NodePayload::Master,
            NodePayload::TrackReader { track, channels } => NodePayload::TrackReader { track: *track, channels: *channels },
            NodePayload::Sum => NodePayload::Sum,
            NodePayload::Lowpass { cutoff_hz } => NodePayload::Lowpass { cutoff_hz: cutoff_hz.share() },
        }
    }
}

/// A processing node with its input and output sockets.
#[derive(Debug, Clone)]
pub struct Node {
    pub inputs: Vec<Socket>,
    pub outputs: Vec<Socket>,
    pub payload: NodePayload,
}

/// A directed connection from an output socket to an input socket.
#[derive(Debug, Clone, Copy, PartialEq, Eq)]
pub struct Link {
    pub from: (NodeID, SocketIndex),
    pub to: (NodeID, SocketIndex),
}

/// A graph representing the signal flow between nodes.
pub struct NodeGraph {
    pub nodes: Store<Node>,
    pub links: Store<Link>,
}

/// A sequence without duplicates whose elements all occur in `b` is no
/// longer than `b`.
proof fn lemma_nodup_contained_len(a: Seq<u64>, b: Seq<u64>)
    requires
        a.no_duplicates(),
        forall|i: int| 0 <= i < a.len() ==> b.contains(#[trigger] a[i]),
    ensures
        a.len() <= b.len(),
{
    a.unique_seq_to_set();
    b.lemma_cardinality_of_set();
    assert(a.to_set().subset_of(b.to_set())) by {
        assert forall|x: u64| a.to_set().contains(x) implies b.to_set().contains(x) by {
            let i = a.index_of(x);
            assert(b.contains(a[i]));
        }
    }
    vstd::set_lib::lemma_len_subset(a.to_set(), b.to_set());
}

/// When Kahn's algorithm stops before placing every node, no order of the
/// nodes puts every link forward: the earliest unplaced node of any candidate
/// order still has a link from an unplaced node.
proof fn lemma_no_order_left(
    nodes: Map<u64, Node>,
    links: Map<u64, Link>,
    ids: Seq<u64>,
    lids: Seq<u64>,
    order: Seq<u64>,
    remaining: Seq<usize>,
    o: Seq<u64>,
)
    requires
        ids.no_duplicates(),
        ids.to_set() == nodes.dom(),
        nodes.dom().finite(),
        forall|i: int| 0 <= i < lids.len() ==> links.contains_key(#[trigger] lids[i]),
        order.no_duplicates(),
        order.len() < ids.len(),
        forall|q: int| 0 <= q < order.len() ==> ids.contains(#[trigger] order[q]),
        remaining.len() == ids.len(),
        forall|p: int| 0 <= p < ids.len() ==> #[trigger] remaining[p] == pending_in(links, lids, ids[p], order.to_set()),
        forall|p: int| 0 <= p < ids.len() ==> (remaining[p] == 0 <==> order.contains(#[trigger] ids[p])),
    ensures
        !is_topo_order(nodes, links, o),
{
    if !is_topo_order(nodes, links, o) {
        return;
    }
    let d = order.to_set();
    // Some node is not placed.
    let x = choose|x: u64| nodes.dom().contains(x) && !d.contains(x);
    assert(exists|x: u64| nodes.dom().contains(x) && !d.contains(x)) by {
        if forall|x: u64| nodes.dom().contains(x) ==> d.contains(x) {
            order.unique_seq_to_set();
            ids.unique_seq_to_set();
            assert(d.subset_of(ids.to_set())) by {
                assert forall|y: u64| d.contains(y) implies ids.to_set().contains(y) by {
                    let q = order.index_of(y);
                    assert(ids.contains(order[q]));
                }
            }
            vstd::set_lib::lemma_len_subset(ids.to_set(), d);
        }
    }
    assert(o.to_set().contains(x));
    let i = o.index_of(x);
    let m = lemma_first_outside(o, d, i);
    let y = o[m];
    assert(o.to_set().contains(y));
    assert(ids.to_set().contains(y));
    let p = ids.index_of(y);
    assert(!order.contains(ids[p]));
    assert(remaining[p] != 0);
    let k = lemma_pending_pos(links, lids, y, d);
    let l = lids[k];
    assert(links.contains_key(l));
    assert(precedes(o, links[l].from.0, links[l].to.0));
    let (a, b) = choose|a: int, b: int| 0 <= a < b < o.len() && #[trigger] o[a] == links[l].from.0 && #[trigger] o[b] == links[l].to.0;
    assert(o[b] == o[m]);
    assert(b == m);
    assert(d.contains(o[a]));
}


/// Which links a sweep of the link store takes out.
pub enum LinkSweep {
    /// Links that join exactly these two sockets.
    Between((NodeID, SocketIndex), (NodeID, SocketIndex)),
    /// Links with either end at this node.
    Touching(NodeID),
}

impl LinkSweep {
    pub open spec fn takes(self, l: Link) -> bool {
        match self {
            LinkSweep::Between(from, to) => joins(l, from, to),
            LinkSweep::Touching(id) => touches(l, id),
        }
    }

    fn takes_exec(&self, l: Link) -> (b: bool)
        ensures
            b == self.takes(l),
    {
        match self {
            LinkSweep::Between(from, to) => l.from.0 == from.0 && l.from.1 == from.1 && l.to.0 == to.0 && l.to.1 == to.1,
            LinkSweep::Touching(id) => l.from.0 == *id || l.to.0 == *id,
        }
    }
}

/// The links of `m` that a sweep leaves in place.
pub open spec fn links_kept(m: Map<u64, Link>, sweep: LinkSweep) -> Map<u64, Link> {
    m.restrict(m.dom().filter(|l: u64| !sweep.takes(m[l])))
}

/// Taking out the links between two sockets keeps a link exactly when its
/// source socket or its destination socket (node and index) differs from the
/// given ones; taking out the links touching a node keeps a link exactly when
/// neither end is at that node.
pub proof fn law_sweep_keeps_other_links(m: Map<u64, Link>, from: (NodeID, SocketIndex), to: (NodeID, SocketIndex), id: NodeID, l: u64)
    requires
        m.contains_key(l),
    ensures
        links_kept(m, LinkSweep::Between(from, to)).contains_key(l)
            <==> (m[l].from.0 != from.0 || m[l].from.1 != from.1 || m[l].to.0 != to.0 || m[l].to.1 != to.1),
        links_kept(m, LinkSweep::Touching(id)).contains_key(l) <==> (m[l].from.0 != id && m[l].to.0 != id),
        links_kept(m, LinkSweep::Between(from, to)).contains_key(l) ==> links_kept(m, LinkSweep::Between(from, to))[l] == m[l],
{
}

/// What `socket_kind_of` answers: the kind of the named socket, or
/// `NodeNotFound` for a missing node or socket.
pub open spec fn socket_kind_spec(nodes: Map<u64, Node>, endpoint: (NodeID, SocketIndex), is_output: bool) -> Result<SignalKind, EngineError> {
    if !nodes.contains_key(endpoint.0) {
        Err(EngineError::NodeNotFound(endpoint.0))
    } else {
        let list = if is_output { nodes[endpoint.0].outputs@ } else { nodes[endpoint.0].inputs@ };
        if endpoint.1 < list.len() {
            Ok(list[endpoint.1 as int].kind)
        } else {
            Err(EngineError::NodeNotFound(endpoint.0))
        }
    }
}

/// What `add_link` answers: the first socket that is missing, the two kinds
/// when the source's kind cannot feed the destination's, a refusal when the
/// link would close a cycle, and success otherwise.
pub open spec fn add_link_outcome(
    nodes: Map<u64, Node>,
    links: Map<u64, Link>,
    from: (NodeID, SocketIndex),
    to: (NodeID, SocketIndex),
) -> Result<(), EngineError> {
    match socket_kind_spec(nodes, from, true) {
        Err(e) => Err(e),
        Ok(fk) => match socket_kind_spec(nodes, to, false) {
            Err(e) => Err(e),
            Ok(tk) => if !fk.connects_to(tk) {
                Err(EngineError::IncompatibleSockets { from: fk, to: tk })
            } else if !acyclic_with(nodes, links, Link { from, to }) {
                Err(EngineError::WouldCreateCycle)
            } else {
                Ok(())
            },
        },
    }
}

impl NodeGraph {
    /// Links an output socket to an input socket. The link is refused when a
    /// socket is missing, when the kinds cannot connect, or when it would
    /// close a cycle; then the graph is left as it was.
    pub fn add_link(&mut self, from: (NodeID, SocketIndex), to: (NodeID, SocketIndex)) -> (r: Result<(), EngineError>)
        requires
            old(self).wf(),
            is_key(from.0),
            is_key(to.0),
            old(self).link_map().len() < SLOT_LIMIT,
        ensures
            final(self).wf(),
            final(self).node_map() == old(self).node_map(),
            r == add_link_outcome(old(self).node_map(), old(self).link_map(), from, to),
            r is Ok ==> exists|lid: u64| !old(self).link_map().contains_key(lid)
                && final(self).link_map() == old(self).link_map().insert(lid, Link { from, to }),
            r is Err ==> final(self).link_map() == old(self).link_map(),
    {
        let ghost nodes0 = self.node_map();
        let ghost links0 = self.link_map();
        let fk = match self.socket_kind_of(from, true) {
            Ok(k) => k,
            Err(e) => return Err(e),
        };
        let tk = match self.socket_kind_of(to, false) {
            Ok(k) => k,
            Err(e) => return Err(e),
        };
        if !fk.can_connect_to(tk) {
            return Err(EngineError::IncompatibleSockets { from: fk, to: tk });
        }
        let link = Link { from, to };
        let lid = link_store_insert(&mut self.links, link);
        proof {
            lemma_acyclic_insert(nodes0, links0, lid, link);
        }
        match self.topo_sort() {
            Ok(_) => {
                proof {
                    assert(acyclic_maps(self.node_map(), self.link_map()));
                    assert forall|l: u64| #[trigger] self.link_map().contains_key(l) implies link_valid(self.node_map(), self.link_map()[l]) by {
                        if l != lid {
                            assert(links0.contains_key(l));
                        }
                    }
                }
                Ok(())
            },
            Err(_) => {
                proof {
                    assert(targets_exist(self.node_map(), self.link_map())) by {
                        assert forall|l: u64| #[trigger] self.link_map().contains_key(l) implies self.node_map().contains_key(self.link_map()[l].to.0) by {
                            if l != lid {
                                assert(links0.contains_key(l));
                                assert(link_valid(nodes0, links0[l]));
                            }
                        }
                    }
                    // No old link joins the same sockets: it would make the new one harmless.
                    assert forall|l: u64| #[trigger] links0.contains_key(l) implies !joins(links0[l], from, to) by {
                        if joins(links0[l], from, to) {
                            let o = choose|o: Seq<u64>| is_topo_order(nodes0, links0, o);
                            assert(precedes(o, links0[l].from.0, links0[l].to.0));
                            assert(acyclic_with(nodes0, links0, link));
                        }
                    }
                }
                self.sweep_links(LinkSweep::Between(from, to));
                proof {
                    assert(self.link_map() =~= links0);
                }
                Err(EngineError::WouldCreateCycle)
            },
        }
    }

    /// A graph without nodes or links.
    pub fn new() -> (g: NodeGraph)
        ensures
            g.node_map().dom() == Set::<u64>::empty(),
            g.link_map().dom() == Set::<u64>::empty(),
            g.wf(),
    {
        let g = NodeGraph { nodes: node_store_new(), links: link_store_new() };
        proof {
            assert(Seq::<u64>::empty().to_set() =~= Set::<u64>::empty());
            assert(is_topo_order(g.node_map(), g.link_map(), Seq::empty()));
        }
        g
    }

    /// Adds a node without links and returns its identifier.
    pub fn add_node(&mut self, node: Node) -> (id: NodeID)
        requires
            old(self).wf(),
            old(self).node_map().len() < SLOT_LIMIT,
        ensures
            final(self).wf(),
            is_key(id),
            !old(self).node_map().contains_key(id),
            final(self).node_map() == old(self).node_map().insert(id, node),
            final(self).link_map() == old(self).link_map(),
    {
        let ghost nodes = self.node_map();
        let id = node_store_insert(&mut self.nodes, node);
        proof {
            lemma_acyclic_add_source(nodes, self.link_map(), id, node, self.link_map());
        }
        id
    }

    /// The kind of a socket: an output of the node when `is_output`, an input
    /// otherwise.
    pub fn socket_kind_of(&self, endpoint: (NodeID, SocketIndex), is_output: bool) -> (r: Result<SignalKind, EngineError>)
        requires
            is_key(endpoint.0),
        ensures
            r == socket_kind_spec(self.node_map(), endpoint, is_output),
    {
        let node = match node_store_get(&self.nodes, endpoint.0) {
            Some(node) => node,
            None => return Err(EngineError::NodeNotFound(endpoint.0)),
        };
        let list = if is_output { &node.outputs } else { &node.inputs };
        if endpoint.1 < list.len() {
            Ok(list[endpoint.1].kind)
        } else {
            Err(EngineError::NodeNotFound(endpoint.0))
        }
    }

    /// Takes out every link the sweep names; nodes stay.
    pub fn sweep_links(&mut self, sweep: LinkSweep)
        requires
            old(self).keys_valid(),
        ensures
            final(self).keys_valid(),
            final(self).node_map() == old(self).node_map(),
            final(self).link_map() == links_kept(old(self).link_map(), sweep),
    {
        let ghost links0 = self.link_map();
        let lids = link_store_keys(&self.links);
        let mut j: usize = 0;
        while j < lids.len()
            invariant
                j <= lids@.len(),
                lids@.no_duplicates(),
                forall|i: int| 0 <= i < lids@.len() ==> links0.contains_key(#[trigger] lids@[i]),
                forall|l: u64| #[trigger] links0.contains_key(l) ==> lids@.contains(l),
                self.keys_valid(),
                old(self).keys_valid(),
                self.node_map() == old(self).node_map(),
                links0 == old(self).link_map(),
                forall|l: u64| #[trigger] self.link_map().contains_key(l) <==> (links0.contains_key(l)
                    && !(lids@.take(j as int).contains(l) && sweep.takes(links0[l]))),
                forall|l: u64| #[trigger] self.link_map().contains_key(l) ==> self.link_map()[l] == links0[l],
            decreases lids@.len() - j,
        {
            let lid = lids[j];
            let ghost cur = self.link_map();
            proof {
                assert(lids@.take(j + 1) =~= lids@.take(j as int).push(lid));
                assert(!lids@.take(j as int).contains(lid)) by {
                    if lids@.take(j as int).contains(lid) {
                        let p = lids@.take(j as int).index_of(lid);
                        assert(lids@[p] == lids@[j as int]);
                    }
                }
                assert(links0.contains_key(lid));
                assert(cur.contains_key(lid));
            }
            match link_store_get(&self.links, lid) {
                Some(l) => {
                    if sweep.takes_exec(l) {
                        link_store_remove(&mut self.links, lid);
                    }
                },
                None => {},
            }
            proof {
                assert forall|l: u64| #[trigger] self.link_map().contains_key(l) <==> (links0.contains_key(l)
                    && !(lids@.take(j + 1).contains(l) && sweep.takes(links0[l]))) by {
                    if l != lid {
                        if lids@.take(j + 1).contains(l) {
                            let p = lids@.take(j + 1).index_of(l);
                            assert(lids@.take(j as int)[p] == l);
                        }
                        if lids@.take(j as int).contains(l) {
                            let p = lids@.take(j as int).index_of(l);
                            assert(lids@.take(j + 1)[p] == l);
                        }
                    } else {
                        assert(lids@.take(j + 1)[j as int] == lid);
                    }
                }
            }
            j = j + 1;
        }
        proof {
            assert(lids@.take(lids@.len() as int) =~= lids@);
            assert(self.link_map() =~= links_kept(links0, sweep));
        }
    }

    /// Takes out a node and every link that touches it.
    pub fn purge(&mut self, id: NodeID)
        requires
            old(self).wf(),
            is_key(id),
        ensures
            final(self).wf(),
            final(self).node_map() == old(self).node_map().remove(id),
            final(self).link_map() == links_kept(old(self).link_map(), LinkSweep::Touching(id)),
    {
        let ghost nodes0 = self.node_map();
        let ghost links0 = self.link_map();
        self.sweep_links(LinkSweep::Touching(id));
        node_store_remove(&mut self.nodes, id);
        proof {
            let links2 = self.link_map();
            assert(links_within(links2, links0));
            lemma_acyclic_remove_node(nodes0, links0, id, links2);
            assert forall|l: u64| #[trigger] links2.contains_key(l) implies link_valid(self.node_map(), links2[l]) by {
                assert(links0.contains_key(l));
                assert(link_valid(nodes0, links0[l]));
            }
        }
    }

    /// Appends an input socket of kind `kind`, labelled with its index, to a
    /// node and returns that index.
    pub fn add_node_input(&mut self, id: NodeID, kind: SignalKind) -> (r: Result<SocketIndex, EngineError>)
        requires
            old(self).wf(),
            is_key(id),
        ensures
            final(self).wf(),
            final(self).link_map() == old(self).link_map(),
            match r {
                Ok(i) => {
                    &&& old(self).node_map().contains_key(id)
                    &&& i == old(self).node_map()[id].inputs@.len()
                    &&& final(self).node_map().dom() == old(self).node_map().dom()
                    &&& forall|k: u64| k != id && #[trigger] old(self).node_map().contains_key(k) ==> final(self).node_map()[k] == old(self).node_map()[k]
                    &&& final(self).node_map()[id].inputs@ == old(self).node_map()[id].inputs@.push(
                        Socket { kind, name: final(self).node_map()[id].inputs@[i as int].name, visible: true })
                    &&& final(self).node_map()[id].inputs@[i as int].name@ == input_label_spec(i as nat)
                    &&& final(self).node_map()[id].outputs@ == old(self).node_map()[id].outputs@
                    &&& final(self).node_map()[id].payload == old(self).node_map()[id].payload
                },
                Err(e) => {
                    &&& !old(self).node_map().contains_key(id)
                    &&& e == EngineError::NodeNotFound(id)
                    &&& final(self).node_map() == old(self).node_map()
                },
            },
    {
        let ghost nodes0 = self.node_map();
        let node = match node_store_get(&self.nodes, id) {
            Some(node) => node,
            None => return Err(EngineError::NodeNotFound(id)),
        };
        let i = node.inputs.len();
        let mut inputs = node.inputs.clone();
        let outputs = node.outputs.clone();
        let payload = node.payload.duplicate();
        proof {
            assert(inputs@ =~= nodes0[id].inputs@);
            assert(outputs@ =~= nodes0[id].outputs@);
        }
        inputs.push(Socket { kind, name: input_label(i), visible: true });
        let updated = Node { inputs, outputs, payload };
        node_store_set(&mut self.nodes, id, updated);
        proof {
            let nodes2 = self.node_map();
            assert(nodes2.dom() =~= nodes0.dom());
            lemma_acyclic_within(nodes0, self.link_map(), nodes2, self.link_map());
            assert forall|l: u64| #[trigger] self.link_map().contains_key(l) implies link_valid(nodes2, self.link_map()[l]) by {
                assert(link_valid(nodes0, self.link_map()[l]));
            }
        }
        Ok(i)
    }

    /// Appends the input socket `socket` to node `id`, which must be in the
    /// graph, and returns its index.
    pub fn push_input(&mut self, id: NodeID, socket: Socket) -> (i: SocketIndex)
        requires
            old(self).wf(),
            old(self).node_map().contains_key(id),
        ensures
            final(self).wf(),
            final(self).link_map() == old(self).link_map(),
            i == old(self).node_map()[id].inputs@.len(),
            final(self).node_map().dom() == old(self).node_map().dom(),
            forall|k: u64| k != id && #[trigger] old(self).node_map().contains_key(k) ==> final(self).node_map()[k] == old(self).node_map()[k],
            final(self).node_map()[id].inputs@ == old(self).node_map()[id].inputs@.push(socket),
            final(self).node_map()[id].outputs@ == old(self).node_map()[id].outputs@,
            final(self).node_map()[id].payload == old(self).node_map()[id].payload,
    {
        let ghost nodes0 = self.node_map();
        proof {
            assert(is_key(id));
        }
        let node = node_store_get(&self.nodes, id).unwrap();
        let i = node.inputs.len();
        let mut inputs = node.inputs.clone();
        let outputs = node.outputs.clone();
        let payload = node.payload.duplicate();
        proof {
            assert(inputs@ =~= nodes0[id].inputs@);
            assert(outputs@ =~= nodes0[id].outputs@);
        }
        inputs.push(socket);
        let updated = Node { inputs, outputs, payload };
        node_store_set(&mut self.nodes, id, updated);
        proof {
            let nodes2 = self.node_map();
            assert(nodes2.dom() =~= nodes0.dom());
            lemma_acyclic_within(nodes0, self.link_map(), nodes2, self.link_map());
            assert forall|l: u64| #[trigger] self.link_map().contains_key(l) implies link_valid(nodes2, self.link_map()[l]) by {
                assert(link_valid(nodes0, self.link_map()[l]));
            }
        }
        i
    }

    /// The node stored under `id`, if any.
    pub fn node(&self, id: NodeID) -> (r: Option<&Node>)
        requires
            self.keys_valid(),
        ensures
            r == (if self.node_map().contains_key(id) { Some(&self.node_map()[id]) } else { None }),
    {
        if !is_key_exec(id) {
            return None;
        }
        node_store_get(&self.nodes, id)
    }

    /// The link stored under `id`, if any.
    pub fn link(&self, id: LinkID) -> (r: Option<Link>)
        requires
            self.keys_valid(),
        ensures
            r == (if self.link_map().contains_key(id) { Some(self.link_map()[id]) } else { None }),
    {
        if !is_key_exec(id) {
            return None;
        }
        link_store_get(&self.links, id)
    }

    /// The identifiers of the graph's nodes, each once.
    pub fn node_ids(&self) -> (r: Vec<NodeID>)
        ensures
            r@.no_duplicates(),
            r@.to_set() == self.node_map().dom(),
    {
        let r = node_store_keys(&self.nodes);
        proof {
            assert(r@.to_set() =~= self.node_map().dom());
        }
        r
    }

    /// The identifiers of the graph's links, each once.
    pub fn link_ids(&self) -> (r: Vec<LinkID>)
        ensures
            r@.no_duplicates(),
            r@.to_set() == self.link_map().dom(),
    {
        let r = link_store_keys(&self.links);
        proof {
            assert(r@.to_set() =~= self.link_map().dom());
        }
        r
    }

    /// The number of nodes.
    pub fn node_count(&self) -> (n: usize)
        ensures
            n == self.node_map().len(),
    {
        node_store_len(&self.nodes)
    }

    /// The number of links.
    pub fn link_count(&self) -> (n: usize)
        ensures
            n == self.link_map().len(),
    {
        link_store_len(&self.links)
    }
}

/// Position of `x` in `ids`.
pub fn index_of(ids: &Vec<u64>, x: u64) -> (r: Option<usize>)
    ensures
        match r {
            Some(i) => i < ids@.len() && ids@[i as int] == x,
            None => !ids@.contains(x),
        },
{
    let mut i: usize = 0;
    while i < ids.len()
        invariant
            i <= ids@.len(),
            forall|p: int| 0 <= p < i ==> ids@[p] != x,
        decreases ids@.len() - i,
    {
        if ids[i] == x {
            return Some(i);
        }
        i = i + 1;
    }
    None
}

/// Both ends of `l` name existing sockets: an output of its source node and an
/// input of its destination node.
pub open spec fn link_valid(nodes: Map<u64, Node>, l: Link) -> bool {
    &&& nodes.contains_key(l.from.0)
    &&& l.from.1 < nodes[l.from.0].outputs@.len()
    &&& nodes.contains_key(l.to.0)
    &&& l.to.1 < nodes[l.to.0].inputs@.len()
}

/// `l` joins exactly the sockets `from` and `to`.
pub open spec fn joins(l: Link, from: (NodeID, SocketIndex), to: (NodeID, SocketIndex)) -> bool {
    l.from == from && l.to == to
}

/// `l` touches node `id` at either end.
pub open spec fn touches(l: Link, id: NodeID) -> bool {
    l.from.0 == id || l.to.0 == id
}

/// The decimal digits of `n`.
pub open spec fn decimal(n: nat) -> Seq<char>
    decreases n,
{
    if n < 10 {
        seq![(48 + n) as char]
    } else {
        decimal(n / 10).push((48 + n % 10) as char)
    }
}

/// The label of a generated input socket: `Input ` and the socket's index.
pub open spec fn input_label_spec(i: nat) -> Seq<char> {
    seq!['I', 'n', 'p', 'u', 't', ' '] + decimal(i)
}

/// `ToString` for `usize`: std's `Display` for unsigned integers writes the
/// decimal digits of `i`, without sign, padding or leading zeros.
#[verifier::external_body]
fn decimal_text(i: usize) -> (r: String)
    ensures
        r@ == decimal(i as nat),
{
    i.to_string()
}

/// `String::leak`: the same characters, kept alive for the rest of the
/// program.
#[verifier::external_body]
fn leak_text(s: String) -> (r: &'static str)
    ensures
        r@ == s@,
{
    s.leak()
}

/// The label of a generated input socket, kept alive for the rest of the
/// program.
pub(crate) fn input_label(i: usize) -> (r: &'static str)
    ensures
        r@ == input_label_spec(i as nat),
{
    let prefix: String = <String as StringExecFns>::from_str("Input ");
    proof {
        reveal_strlit("Input ");
    }
    let digits = decimal_text(i);
    let label = prefix.concat(digits.as_str());
    proof {
        assert(label@ =~= input_label_spec(i as nat));
    }
    leak_text(label)
}

impl NodeGraph {
    pub open spec fn node_map(&self) -> Map<u64, Node> {
        node_store(self.nodes)
    }

    pub open spec fn link_map(&self) -> Map<u64, Link> {
        link_store(self.links)
    }

    /// The stores hold finitely many entries, all under slot-map keys.
    pub open spec fn keys_valid(&self) -> bool {
        &&& self.node_map().dom().finite()
        &&& self.link_map().dom().finite()
        &&& forall|k: u64| #[trigger] self.node_map().contains_key(k) ==> is_key(k)
        &&& forall|k: u64| #[trigger] self.link_map().contains_key(k) ==> is_key(k)
    }

    /// Keys are valid, every link joins existing sockets, and the graph has no
    /// cycle.
    pub open spec fn wf(&self) -> bool {
        &&& self.keys_valid()
        &&& forall|l: u64| #[trigger] self.link_map().contains_key(l) ==> link_valid(self.node_map(), self.link_map()[l])
        &&& self.acyclic()
    }

    /// Some order of the nodes puts every link forward.
    pub open spec fn acyclic(&self) -> bool {
        acyclic_maps(self.node_map(), self.link_map())
    }

    /// Kahn's algorithm: an order of all nodes in which every link runs
    /// forward. It fails with `NodeNotFound` on a link into a missing node,
    /// and with `WouldCreateCycle` when no such order exists.
    pub fn topo_sort(&self) -> (r: Result<Vec<NodeID>, EngineError>)
        requires
            self.keys_valid(),
        ensures
            match r {
                Ok(order) => is_topo_order(self.node_map(), self.link_map(), order@),
                Err(EngineError::WouldCreateCycle) => targets_exist(self.node_map(), self.link_map())
                    && !self.acyclic(),
                Err(EngineError::NodeNotFound(x)) => exists|l: u64| #[trigger]
                    self.link_map().contains_key(l) && self.link_map()[l].to.0 == x
                        && !self.node_map().contains_key(x),
                Err(_) => false,
            },
    {
        let ghost nodes = self.node_map();
        let ghost links = self.link_map();
        let ids = node_store_keys(&self.nodes);
        let lids = link_store_keys(&self.links);
        let n = ids.len();
        proof {
            assert(ids@.to_set() =~= nodes.dom());
            ids@.unique_seq_to_set();
        }
        let mut indeg: Vec<usize> = Vec::new();
        while indeg.len() < n
            invariant
                indeg@.len() <= n,
                n == ids@.len(),
                forall|i: int| 0 <= i < indeg@.len() ==> indeg@[i] == 0,
            decreases n - indeg@.len(),
        {
            indeg.push(0);
        }
        let mut j: usize = 0;
        while j < lids.len()
            invariant
                j <= lids@.len(),
                n == ids@.len(),
                indeg@.len() == n,
                ids@.no_duplicates(),
                ids@.to_set() == nodes.dom(),
                nodes == self.node_map(),
                forall|i: int| 0 <= i < n ==> indeg@[i] == pending_in(links, lids@.take(j as int), #[trigger] ids@[i], Set::empty()),
                forall|k: int| 0 <= k < j ==> ids@.contains(#[trigger] links[lids@[k]].to.0),
                self.keys_valid(),
                forall|i: int| 0 <= i < lids@.len() ==> links.contains_key(#[trigger] lids@[i]),
                links == self.link_map(),
            decreases lids@.len() - j,
        {
            let lid = lids[j];
            let l = match link_store_get(&self.links, lid) {
                Some(l) => l,
                None => {
                    assert(false);
                    return Err(EngineError::WouldCreateCycle);
                },
            };
            proof {
                assert forall|i: int| 0 <= i < n implies #[trigger] pending_in(links, lids@.take(j + 1), ids@[i], Set::empty())
                    == pending_in(links, lids@.take(j as int), ids@[i], Set::empty()) + if l.to.0 == ids@[i] { 1nat } else { 0nat } by {
                    lemma_pending_take_step(links, lids@, j as int, ids@[i], Set::empty());
                }
            }
            match index_of(&ids, l.to.0) {
                Some(i) => {
                    proof {
                        lemma_pending_le_len(links, lids@.take(j as int), ids@[i as int], Set::empty());
                    }
                    let d = indeg[i];
                    indeg.set(i, d + 1);
                },
                None => {
                    proof {
                        assert(self.link_map().contains_key(lid));
                        assert(!ids@.to_set().contains(l.to.0));
                    }
                    return Err(EngineError::NodeNotFound(l.to.0));
                },
            }
            j = j + 1;
        }
        proof {
            assert(lids@.take(lids@.len() as int) =~= lids@);
        }
        // Nodes with no incoming link start the queue.
        let mut queue: Vec<u64> = Vec::new();
        let mut i: usize = 0;
        while i < n
            invariant
                i <= n,
                n == ids@.len(),
                indeg@.len() == n,
                ids@.no_duplicates(),
                queue@.no_duplicates(),
                forall|q: int| 0 <= q < queue@.len() ==> ids@.take(i as int).contains(#[trigger] queue@[q]),
                forall|p: int| 0 <= p < i ==> (indeg@[p] == 0 <==> queue@.contains(#[trigger] ids@[p])),
            decreases n - i,
        {
            proof {
                assert(ids@.take(i + 1) =~= ids@.take(i as int).push(ids@[i as int]));
                assert(!ids@.take(i as int).contains(ids@[i as int]));
            }
            let ghost q0 = queue@;
            if indeg[i] == 0 {
                queue.push(ids[i]);
            }
            proof {
                assert forall|q: int| 0 <= q < queue@.len() implies ids@.take(i + 1).contains(#[trigger] queue@[q]) by {
                    if q < q0.len() {
                        assert(queue@[q] == q0[q]);
                        let r = ids@.take(i as int).index_of(q0[q]);
                        assert(ids@.take(i + 1)[r] == q0[q]);
                    } else {
                        assert(ids@.take(i + 1)[i as int] == ids@[i as int]);
                    }
                }
                assert forall|p: int| 0 <= p < i + 1 implies (indeg@[p] == 0 <==> queue@.contains(#[trigger] ids@[p])) by {
                    if p < i {
                        assert(ids@[p] != ids@[i as int]);
                        if q0.contains(ids@[p]) {
                            let r = q0.index_of(ids@[p]);
                            assert(queue@[r] == q0[r]);
                        }
                        if queue@.contains(ids@[p]) {
                            let r = queue@.index_of(ids@[p]);
                            if r < q0.len() {
                                assert(queue@[r] == q0[r]);
                            }
                        }
                    } else if indeg@[p] == 0 {
                        assert(queue@[queue@.len() - 1] == ids@[p]);
                    }
                }
            }
            i = i + 1;
        }
        proof {
            assert(ids@.take(n as int) =~= ids@);
            assert forall|q: int, k: int| 0 <= q < queue@.len() && 0 <= k < lids@.len()
                && #[trigger] links[lids@[k]].to.0 == #[trigger] queue@[q] implies false by {
                let p = ids@.index_of(queue@[q]);
                assert(ids@[p] == queue@[q]);
                lemma_pending_zero(links, lids@, ids@[p], Set::empty(), k);
            }
            lemma_nodup_contained_len(queue@, ids@);
        }
        let mut remaining = indeg;
        let mut order: Vec<u64> = Vec::new();
        let mut head: usize = 0;
        proof {
            assert(order@ =~= queue@.take(0));
            assert(order@.to_set() =~= Set::<u64>::empty());
        }
        while head < queue.len()
            invariant
                n == ids@.len(),
                ids@.no_duplicates(),
                ids@.to_set() == nodes.dom(),
                forall|i: int| 0 <= i < lids@.len() ==> links.contains_key(#[trigger] lids@[i]),
                forall|l: u64| #[trigger] links.contains_key(l) ==> lids@.contains(l),
                forall|k: int| 0 <= k < lids@.len() ==> ids@.contains(#[trigger] links[lids@[k]].to.0),
                self.keys_valid(),
                links == self.link_map(),
                nodes == self.node_map(),
                remaining@.len() == n,
                head <= queue@.len() <= n,
                queue@.no_duplicates(),
                forall|q: int| 0 <= q < queue@.len() ==> ids@.contains(#[trigger] queue@[q]),
                order@ == queue@.take(head as int),
                forall|p: int| 0 <= p < n ==> #[trigger] remaining@[p] == pending_in(links, lids@, ids@[p], order@.to_set()),
                forall|p: int| 0 <= p < n ==> (remaining@[p] == 0 <==> queue@.contains(#[trigger] ids@[p])),
                forall|q: int, k: int| 0 <= q < queue@.len() && 0 <= k < lids@.len()
                    && #[trigger] links[lids@[k]].to.0 == #[trigger] queue@[q]
                    ==> exists|pp: int| 0 <= pp < q && #[trigger] queue@[pp] == links[lids@[k]].from.0,
            decreases n - head,
        {
            let nid = queue[head];
            let ghost done_old = order@.to_set();
            proof {
                assert(!queue@.take(head as int).contains(nid));
                assert(queue@.take(head + 1) =~= queue@.take(head as int).push(nid));
                order@.lemma_push_to_set_commute(nid);
            }
            head = head + 1;
            order.push(nid);
            let mut j: usize = 0;
            while j < lids.len()
                invariant
                    n == ids@.len(),
                    ids@.no_duplicates(),
                    ids@.to_set() == nodes.dom(),
                    forall|i: int| 0 <= i < lids@.len() ==> links.contains_key(#[trigger] lids@[i]),
                    forall|k: int| 0 <= k < lids@.len() ==> ids@.contains(#[trigger] links[lids@[k]].to.0),
                    self.keys_valid(),
                    links == self.link_map(),
                    j <= lids@.len(),
                    remaining@.len() == n,
                    0 < head <= queue@.len() <= n,
                    queue@.no_duplicates(),
                    forall|q: int| 0 <= q < queue@.len() ==> ids@.contains(#[trigger] queue@[q]),
                    order@ == queue@.take(head as int),
                    nid == queue@[head - 1],
                    !done_old.contains(nid),
                    order@.to_set() == done_old.insert(nid),
                    forall|p: int| 0 <= p < n ==> #[trigger] remaining@[p] + links_between(links, lids@.take(j as int), nid, ids@[p])
                        == pending_in(links, lids@, ids@[p], done_old),
                    forall|p: int| 0 <= p < n ==> (remaining@[p] == 0 <==> queue@.contains(#[trigger] ids@[p])),
                    forall|q: int, k: int| 0 <= q < queue@.len() && 0 <= k < lids@.len()
                        && #[trigger] links[lids@[k]].to.0 == #[trigger] queue@[q]
                        ==> exists|pp: int| 0 <= pp < q && #[trigger] queue@[pp] == links[lids@[k]].from.0,
                decreases lids@.len() - j,
            {
                let l = match link_store_get(&self.links, lids[j]) {
                    Some(l) => l,
                    None => {
                        assert(false);
                        return Err(EngineError::WouldCreateCycle);
                    },
                };
                proof {
                    assert forall|p: int| 0 <= p < n implies #[trigger] links_between(links, lids@.take(j + 1), nid, ids@[p])
                        == links_between(links, lids@.take(j as int), nid, ids@[p])
                            + if l.to.0 == ids@[p] && l.from.0 == nid { 1nat } else { 0nat } by {
                        lemma_between_take_step(links, lids@, j as int, nid, ids@[p]);
                    }
                }
                if l.from.0 == nid {
                    let ti = match index_of(&ids, l.to.0) {
                        Some(ti) => ti,
                        None => {
                            assert(false);
                            return Err(EngineError::WouldCreateCycle);
                        },
                    };
                    let ghost t = ids@[ti as int];
                    proof {
                        lemma_between_prefix(links, lids@, j + 1, nid, t);
                        lemma_pending_split(links, lids@, t, done_old, nid);
                    }
                    let ghost q0 = queue@;
                    let ghost r0 = remaining@;
                    let d = remaining[ti];
                    remaining.set(ti, d - 1);
                    if d == 1 {
                        proof {
                            let qlen = queue@.len() as int;
                            assert(!queue@.contains(t));
                            assert(pending_in(links, lids@, t, done_old.insert(nid)) == 0);
                            assert forall|k: int| 0 <= k < lids@.len() && #[trigger] links[lids@[k]].to.0 == t
                                implies exists|pp: int| 0 <= pp < qlen && #[trigger] queue@[pp] == links[lids@[k]].from.0 by {
                                lemma_pending_zero(links, lids@, t, done_old.insert(nid), k);
                                let f = links[lids@[k]].from.0;
                                assert(order@.contains(f));
                                let pp = order@.index_of(f);
                                assert(queue@[pp] == f);
                            }
                        }
                        queue.push(l.to.0);
                        proof {
                            lemma_nodup_contained_len(queue@, ids@);
                            assert(queue@.take(head as int) =~= q0.take(head as int));
                        }
                    }
                    proof {
                        assert forall|p: int| 0 <= p < n implies (remaining@[p] == 0 <==> queue@.contains(#[trigger] ids@[p])) by {
                            if p != ti {
                                assert(ids@[p] != t);
                                assert(remaining@[p] == r0[p]);
                                if q0.contains(ids@[p]) {
                                    let r = q0.index_of(ids@[p]);
                                    assert(queue@[r] == q0[r]);
                                }
                                if queue@.contains(ids@[p]) {
                                    let r = queue@.index_of(ids@[p]);
                                    if r < q0.len() {
                                        assert(queue@[r] == q0[r]);
                                    }
                                }
                            } else if d == 1 {
                                assert(queue@[queue@.len() - 1] == t);
                            } else {
                                assert(!q0.contains(t));
                                assert(queue@ == q0);
                            }
                        }
                        assert forall|q: int, k: int| 0 <= q < queue@.len() && 0 <= k < lids@.len()
                            && #[trigger] links[lids@[k]].to.0 == #[trigger] queue@[q]
                            implies exists|pp: int| 0 <= pp < q && #[trigger] queue@[pp] == links[lids@[k]].from.0 by {
                            if q < q0.len() {
                                assert(queue@[q] == q0[q]);
                                assert(q0[q] == links[lids@[k]].to.0);
                                let pp = choose|pp: int| 0 <= pp < q && #[trigger] q0[pp] == links[lids@[k]].from.0;
                                assert(queue@[pp] == q0[pp]);
                            } else {
                                assert(queue@[q] == t);
                                let pp = choose|pp: int| 0 <= pp < q0.len() && #[trigger] q0[pp] == links[lids@[k]].from.0;
                                assert(queue@[pp] == q0[pp]);
                            }
                        }
                    }
                }
                j = j + 1;
            }
            proof {
                assert(lids@.take(lids@.len() as int) =~= lids@);
                assert forall|p: int| 0 <= p < n implies #[trigger] remaining@[p] == pending_in(links, lids@, ids@[p], order@.to_set()) by {
                    lemma_pending_split(links, lids@, ids@[p], done_old, nid);
                }
            }
        }
        proof {
            assert(queue@.take(head as int) =~= queue@);
        }
        if order.len() != n {
            proof {
                assert(targets_exist(nodes, links)) by {
                    assert forall|l: u64| #[trigger] links.contains_key(l) implies nodes.contains_key(links[l].to.0) by {
                        let k = lids@.index_of(l);
                        assert(ids@.contains(links[lids@[k]].to.0));
                        assert(ids@.to_set().contains(links[l].to.0));
                    }
                }
                assert forall|o: Seq<u64>| !is_topo_order(nodes, links, o) by {
                    lemma_no_order_left(nodes, links, ids@, lids@, order@, remaining@, o);
                }
            }
            return Err(EngineError::WouldCreateCycle);
        }
        proof {
            order@.unique_seq_to_set();
            ids@.unique_seq_to_set();
            assert(order@.to_set().subset_of(ids@.to_set())) by {
                assert forall|x: u64| order@.to_set().contains(x) implies ids@.to_set().contains(x) by {
                    let q = order@.index_of(x);
                    assert(ids@.contains(queue@[q]));
                }
            }
            vstd::set_lib::lemma_subset_equality(order@.to_set(), ids@.to_set());
            assert forall|l: u64| #[trigger] links.contains_key(l) implies precedes(order@, links[l].from.0, links[l].to.0) by {
                let k = lids@.index_of(l);
                let to = links[l].to.0;
                assert(ids@.contains(links[lids@[k]].to.0));
                assert(ids@.to_set().contains(to));
                let q = order@.index_of(to);
                assert(queue@[q] == to);
                let pp = choose|pp: int| 0 <= pp < q && #[trigger] queue@[pp] == links[lids@[k]].from.0;
                assert(order@[pp] == links[l].from.0);
            }
        }
        Ok(order)
    }
}

} // verus!
