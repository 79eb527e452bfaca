//! The members of a cluster and the configuration of a node.
use vstd::prelude::*;
use crate::frame::dec_chars;

verus! {

pub type NodeID = String;

/// Another node of the cluster: its identifier (`ip:port`) and its address.
#[derive(Debug)]
pub struct Node {
    pub id: NodeID,
    pub ip: String,
    pub port: u16,
}

/// What the leader knows of a follower's log.
#[derive(Debug)]
pub struct NodeState {
    pub match_index: u64,
    pub next_index: u64,
}

/// The identifier of the node at `ip` and `port`: `ip:port`, as `format!` writes it.
#[verifier::external_body]
fn node_id(ip: &str, port: u16) -> (r: String)
    ensures
        r@ == ip@ + ":"@ + dec_chars(port as nat),
{
    format!("{}:{}", ip, port)
}

impl Node {
    pub fn new(id: NodeID, ip: String, port: u16) -> (n: Node)
        ensures
            n.id@ == id@,
            n.ip@ == ip@,
            n.port == port,
    {
        Node { id, ip, port }
    }

    pub fn clone_node(&self) -> (n: Node)
        ensures
            n.id@ == self.id@,
            n.ip@ == self.ip@,
            n.port == self.port,
    {
        Node { id: self.id.clone(), ip: self.ip.clone(), port: self.port }
    }
}

impl NodeState {
    pub fn new(match_index: u64, next_index: u64) -> (s: NodeState)
        ensures
            s.match_index == match_index,
            s.next_index == next_index,
    {
        NodeState { match_index, next_index }
    }
}

/// The identifiers of `nodes`.
pub open spec fn ids_of(nodes: Seq<Node>) -> Seq<Seq<char>> {
    Seq::new(nodes.len(), |i: int| nodes[i].id@)
}

/// No identifier occurs twice.
pub open spec fn distinct_ids(ids: Seq<Seq<char>>) -> bool {
    forall|i: int, j: int| 0 <= i < ids.len() && 0 <= j < ids.len() && i != j ==> ids[i] != ids[j]
}

/// The configuration of a node.
#[derive(Debug)]
pub struct ConfigMap {
    pub host: String,
    pub port: u16,
    pub nodes: Vec<Node>,
    pub nodes_state: Vec<(NodeID, NodeState)>,
    pub heartbeat: u64,
    pub timeout: u64,
    pub connecntion_host: String,
    pub connecntion_port: u16,
    pub snapshot_offset: u64,
}

/// The identifier of the node at an address.
pub open spec fn addr_id(a: (String, u16)) -> Seq<char> {
    a.0@ + ":"@ + dec_chars(a.1 as nat)
}

/// A node's identifier is its address.
pub open spec fn node_ok(n: Node) -> bool {
    n.id@ == n.ip@ + ":"@ + dec_chars(n.port as nat)
}

/// The nodes and their states, in step: the same identifiers, every state `(0, 0)`.
pub open spec fn states_ok(nodes: Seq<Node>, states: Seq<(NodeID, NodeState)>) -> bool {
    &&& states.len() == nodes.len()
    &&& forall|i: int|
        0 <= i < states.len() ==> (#[trigger] states[i]).0@ == nodes[i].id@ && states[i].1.match_index
            == 0 && states[i].1.next_index == 0
}

/// Adds the node at `ip` and `port` unless a node with its identifier is there.
fn add_node(
    nodes: &mut Vec<Node>,
    nodes_state: &mut Vec<(NodeID, NodeState)>,
    ip: &String,
    port: u16,
)
    requires
        distinct_ids(ids_of(old(nodes)@)),
        states_ok(old(nodes)@, old(nodes_state)@),
    ensures
        distinct_ids(ids_of(final(nodes)@)),
        states_ok(final(nodes)@, final(nodes_state)@),
        ids_of(old(nodes)@).contains(addr_id((*ip, port))) ==> final(nodes)@ == old(nodes)@,
        !ids_of(old(nodes)@).contains(addr_id((*ip, port))) ==> final(nodes)@.len() == old(
            nodes,
        )@.len() + 1 && final(nodes)@.subrange(0, old(nodes)@.len() as int) == old(nodes)@
            && final(nodes)@.last().id@ == addr_id((*ip, port)) && final(nodes)@.last().ip@ == ip@
            && final(nodes)@.last().port == port,
{
    let id = node_id(ip.as_str(), port);
    let mut found = false;
    let mut i: usize = 0;
    while i < nodes.len()
        invariant
            i <= nodes@.len(),
            found <==> exists|m: int| 0 <= m < i && nodes@[m].id@ == id@,
        decreases nodes@.len() - i,
    {
        if nodes[i].id == id {
            found = true;
        }
        i = i + 1;
    }
    proof {
        if found {
            let m = choose|m: int| 0 <= m < nodes@.len() && nodes@[m].id@ == id@;
            assert(ids_of(nodes@)[m] == id@);
        } else {
            assert forall|m: int| 0 <= m < ids_of(nodes@).len() implies ids_of(nodes@)[m] != id@ by {
                assert(nodes@[m].id@ != id@);
            }
        }
    }
    if !found {
        let ghost before = nodes@;
        let ghost before_state = nodes_state@;
        nodes.push(Node::new(id.clone(), ip.clone(), port));
        nodes_state.push((id, NodeState::new(0, 0)));
        proof {
            let n = before.len() as int;
            assert(nodes@.subrange(0, n) =~= before);
            assert forall|a: int, b: int|
                0 <= a < ids_of(nodes@).len() && 0 <= b < ids_of(nodes@).len() && a != b implies ids_of(
                nodes@,
            )[a] != ids_of(nodes@)[b] by {
                if a < n && b < n {
                    assert(ids_of(before)[a] == ids_of(nodes@)[a]);
                    assert(ids_of(before)[b] == ids_of(nodes@)[b]);
                } else if a == n {
                    assert(ids_of(before)[b] == ids_of(nodes@)[b]);
                } else {
                    assert(ids_of(before)[a] == ids_of(nodes@)[a]);
                }
            }
            assert forall|i2: int| 0 <= i2 < nodes_state@.len() implies (
            #[trigger] nodes_state@[i2]).0@ == nodes@[i2].id@ && nodes_state@[i2].1.match_index
                == 0 && nodes_state@[i2].1.next_index == 0 by {
                if i2 < n {
                    assert(nodes_state@[i2] == before_state[i2]);
                    assert(nodes@[i2] == before[i2]);
                }
            }
        }
    }
}

/// The identifiers of the nodes at `addrs`.
pub open spec fn addr_ids(addrs: Seq<(String, u16)>) -> Seq<Seq<char>> {
    Seq::new(addrs.len(), |j: int| addr_id(addrs[j]))
}

impl ConfigMap {
    /// The configuration with the other nodes at `addrs` (each an IP address and
    /// a port): each address once, in the order first met, each with the
    /// state `(0, 0)`.
    pub fn new(
        host: String,
        port: u16,
        addrs: Vec<(String, u16)>,
        heartbeat: u64,
        timeout: u64,
        connection_host: String,
        connection_port: u16,
        snapshot_offset: u64,
    ) -> (c: ConfigMap)
        ensures
            c.host@ == host@,
            c.port == port,
            c.heartbeat == heartbeat,
            c.timeout == timeout,
            c.connecntion_host@ == connection_host@,
            c.connecntion_port == connection_port,
            c.snapshot_offset == snapshot_offset,
            distinct_ids(ids_of(c.nodes@)),
            states_ok(c.nodes@, c.nodes_state@),
            forall|i: int| 0 <= i < c.nodes@.len() ==> node_ok(#[trigger] c.nodes@[i]),
            forall|i: int|
                0 <= i < c.nodes@.len() ==> addr_ids(addrs@).contains(#[trigger] c.nodes@[i].id@),
            forall|j: int|
                0 <= j < addrs@.len() ==> ids_of(c.nodes@).contains(#[trigger] addr_ids(addrs@)[j]),
    {
        let mut nodes: Vec<Node> = Vec::new();
        let mut nodes_state: Vec<(NodeID, NodeState)> = Vec::new();
        let mut k: usize = 0;
        let ghost all = addr_ids(addrs@);
        proof {
            assert(ids_of(nodes@) =~= Seq::<Seq<char>>::empty());
        }
        while k < addrs.len()
            invariant
                k <= addrs@.len(),
                all == addr_ids(addrs@),
                distinct_ids(ids_of(nodes@)),
                states_ok(nodes@, nodes_state@),
                forall|i: int| 0 <= i < nodes@.len() ==> node_ok(#[trigger] nodes@[i]),
                forall|i: int|
                    0 <= i < nodes@.len() ==> all.subrange(0, k as int).contains(
                        #[trigger] nodes@[i].id@,
                    ),
                forall|j: int| 0 <= j < k ==> ids_of(nodes@).contains(#[trigger] all[j]),
            decreases addrs@.len() - k,
        {
            let ghost before = nodes@;
            add_node(&mut nodes, &mut nodes_state, &addrs[k].0, addrs[k].1);
            proof {
                let a = addrs@[k as int];
                assert(all[k as int] == addr_id(a));
                assert forall|i: int| 0 <= i < nodes@.len() implies node_ok(
                    #[trigger] nodes@[i],
                ) by {
                    if i < before.len() && nodes@ != before {
                        assert(nodes@[i] == nodes@.subrange(0, before.len() as int)[i]);
                    }
                }
                assert forall|i: int| 0 <= i < nodes@.len() implies all.subrange(
                    0,
                    k + 1,
                ).contains(#[trigger] nodes@[i].id@) by {
                    if i < before.len() {
                        assert(nodes@[i] == before[i]) by {
                            if nodes@ != before {
                                assert(nodes@[i] == nodes@.subrange(0, before.len() as int)[i]);
                            }
                        }
                        let m = choose|m: int|
                            0 <= m < k && all.subrange(0, k as int)[m] == before[i].id@;
                        assert(all.subrange(0, k + 1)[m] == all.subrange(0, k as int)[m]);
                    } else {
                        assert(nodes@[i].id@ == addr_id(a));
                        assert(all.subrange(0, k + 1)[k as int] == addr_id(a));
                    }
                }
                assert forall|j: int| 0 <= j < k + 1 implies ids_of(nodes@).contains(
                    #[trigger] all[j],
                ) by {
                    if j < k {
                        let m = choose|m: int|
                            0 <= m < ids_of(before).len() && ids_of(before)[m] == all[j];
                        if nodes@ != before {
                            assert(nodes@[m] == nodes@.subrange(0, before.len() as int)[m]);
                        }
                        assert(ids_of(nodes@)[m] == ids_of(before)[m]);
                    } else if nodes@ != before {
                        assert(ids_of(nodes@)[before.len() as int] == addr_id(a));
                    }
                }
            }
            k = k + 1;
        }
        proof {
            assert(all.subrange(0, k as int) =~= all);
        }
        ConfigMap {
            host,
            port,
            nodes,
            nodes_state,
            heartbeat,
            timeout,
            connecntion_host: connection_host,
            connecntion_port: connection_port,
            snapshot_offset,
        }
    }
}

} // verus!
