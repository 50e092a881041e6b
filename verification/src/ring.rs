//! How a node's state changes as requests arrive: routing and storing keys,
//! joining and leaving the ring, and repairing fingers and successor lists.
use vstd::prelude::*;
use crate::keyspace::{CLUSTER_SIZE, KEY_SIZE};
use crate::node::{
    Node, NodePrev, Succ_list_node, spec_hash, ring_gap, filled_keys, finger_start, key_run,
    two_pow, successor_address, push_key_run, start_of_finger,
};

verus! {

/// What a node does with a request for a key.
pub enum Route {
    /// The node answers for the key itself.
    Local,
    /// The request goes on to the node at this address.
    Forward(String),
    /// No finger names a node to ask.
    NoSuccessor,
}

/// What became of a write of a key.
pub enum PutOutcome {
    /// The node answers for the key and held no value for it; it now holds the new one.
    Inserted,
    /// The node answers for the key and held a value for it; the new one replaces it.
    Updated,
    /// The write goes on to the node at this address.
    Forward(String),
    /// No finger names a node to ask.
    NoSuccessor,
}

/// What a node answers to a read of a key.
pub enum ItemLookup {
    /// The node answers for the key and holds this value.
    Found(String),
    /// The node answers for the key and holds no value for it.
    Missing,
    /// The read goes on to the node at this address.
    Forward(String),
    /// No finger names a node to ask.
    NoSuccessor,
}

/// The addresses of a node's predecessor and successor.
pub struct Neighbors {
    pub prev: String,
    pub next: String,
}

/// What a node reports about itself: its id, its successor's address and the
/// addresses its fingers hold.
pub struct NodeInfo {
    pub node_hash: u32,
    pub successor: String,
    pub others: Vec<String>,
}

/// Whether some address of `addrs` equals `ip`.
pub open spec fn names_address(addrs: Seq<String>, ip: Seq<char>) -> bool {
    exists|k: int| 0 <= k < addrs.len() && addrs[k]@ == ip
}

/// The successor list after an update: `head`, then the received list without its
/// last entry when it already holds `KEY_SIZE` entries.
pub open spec fn refreshed_list(received: Seq<Succ_list_node>, head: Succ_list_node) -> Seq<
    Succ_list_node,
> {
    seq![head] + if received.len() == KEY_SIZE {
        received.drop_last()
    } else {
        received
    }
}

/// Points every finger whose node is farther clockwise from the finger's start
/// than the candidate (`cand_id`, `cand_ip`) at the candidate instead, from finger
/// `from` on; the choice is `Node::get_best_successor`'s.
pub fn relax_fingers_from(
    finger_table: &mut Vec<(u32, Node)>,
    node_id: u32,
    cand_id: u32,
    cand_ip: &String,
    from: usize,
)
    ensures
        fingers_relaxed(old(finger_table)@, final(finger_table)@, cand_id, cand_ip@, from as int),
{
    let mut i = from;
    while i < finger_table.len()
        invariant
            from <= i,
            finger_table@.len() == old(finger_table)@.len(),
            forall|j: int|
                #![trigger finger_table@[j]]
                0 <= j < old(finger_table)@.len() ==> {
                    let o = old(finger_table)@[j];
                    let f = finger_table@[j];
                    &&& f.0 == o.0
                    &&& f.1.hashmap == o.1.hashmap
                    &&& f.1.resp_keys == o.1.resp_keys
                    &&& if j < from || j >= i || ring_gap(o.0, o.1.id) <= ring_gap(o.0, cand_id) {
                        f.1.id == o.1.id && f.1.ip == o.1.ip
                    } else {
                        f.1.id == cand_id && f.1.ip@ == cand_ip@
                    }
                },
        decreases finger_table@.len() - i,
    {
        let start = finger_table[i].0;
        let current = Node::new(finger_table[i].1.id, finger_table[i].1.ip.clone());
        let candidate = Node::new(cand_id, cand_ip.clone());
        let best = Node::get_best_successor(start, node_id, current, candidate);
        let ghost before = finger_table@;
        finger_table[i].1.ip = best.ip;
        finger_table[i].1.id = best.id;
        proof {
            assert forall|j: int|
                #![trigger finger_table@[j]]
                0 <= j < finger_table@.len() && j != i implies finger_table@[j] == before[j] by {}
        }
        i = i + 1;
    }
}

/// The store of a node after a write of `data` under `key` (ring id `key_id`): the
/// key maps to `data` when the node answers for `key_id`, the store is unchanged
/// otherwise.
pub open spec fn store_after_put(
    keys: Seq<u32>,
    store: Map<Seq<char>, String>,
    key_id: u32,
    key: Seq<char>,
    data: String,
) -> Map<Seq<char>, String> {
    if keys.contains(key_id) {
        store.insert(key, data)
    } else {
        store
    }
}

/// What a node answers locally to a read of `key` (ring id `key_id`): `None` when
/// it does not answer for the key, `Some(None)` when it does and holds no value,
/// `Some(Some(v))` when it holds `v`.
pub open spec fn local_read(
    keys: Seq<u32>,
    store: Map<Seq<char>, String>,
    key_id: u32,
    key: Seq<char>,
) -> Option<Option<String>> {
    if !keys.contains(key_id) {
        None
    } else if store.contains_key(key) {
        Some(Some(store[key]))
    } else {
        Some(None)
    }
}

/// A finger keeps its start and its node's store and keys.
pub open spec fn finger_kept(o: (u32, Node), f: (u32, Node)) -> bool {
    &&& f.0 == o.0
    &&& f.1.hashmap == o.1.hashmap
    &&& f.1.resp_keys == o.1.resp_keys
}

/// `new_ft` is `old_ft` with every finger whose address is one of `leaving` pointed
/// at the node (`id`, `ip`).
pub open spec fn fingers_redirected(
    old_ft: Seq<(u32, Node)>,
    new_ft: Seq<(u32, Node)>,
    leaving: Seq<String>,
    id: u32,
    ip: Seq<char>,
) -> bool {
    &&& new_ft.len() == old_ft.len()
    &&& forall|i: int|
        #![trigger new_ft[i]]
        0 <= i < old_ft.len() ==> {
            &&& finger_kept(old_ft[i], new_ft[i])
            &&& if names_address(leaving, old_ft[i].1.ip@) {
                new_ft[i].1.id == id && new_ft[i].1.ip@ == ip
            } else {
                new_ft[i].1.id == old_ft[i].1.id && new_ft[i].1.ip == old_ft[i].1.ip
            }
        }
}

/// `new_ft` is `old_ft` with every finger from `from` on pointed at the candidate
/// (`id`, `ip`) when the candidate lies closer clockwise after the finger's start.
pub open spec fn fingers_relaxed(
    old_ft: Seq<(u32, Node)>,
    new_ft: Seq<(u32, Node)>,
    id: u32,
    ip: Seq<char>,
    from: int,
) -> bool {
    &&& new_ft.len() == old_ft.len()
    &&& forall|i: int|
        #![trigger new_ft[i]]
        0 <= i < old_ft.len() ==> {
            &&& finger_kept(old_ft[i], new_ft[i])
            &&& if i < from || ring_gap(old_ft[i].0, old_ft[i].1.id) <= ring_gap(old_ft[i].0, id) {
                new_ft[i].1.id == old_ft[i].1.id && new_ft[i].1.ip == old_ft[i].1.ip
            } else {
                new_ft[i].1.id == id && new_ft[i].1.ip@ == ip
            }
        }
}

/// Whether `keys` holds `k`.
fn holds_key(keys: &Vec<u32>, k: u32) -> (b: bool)
    ensures
        b == keys@.contains(k),
{
    let mut i: usize = 0;
    while i < keys.len()
        invariant
            i <= keys@.len(),
            forall|j: int| 0 <= j < i ==> keys@[j] != k,
        decreases keys@.len() - i,
    {
        if keys[i] == k {
            return true;
        }
        i = i + 1;
    }
    false
}

/// Whether some address of `addrs` equals `ip`.
fn holds_address(addrs: &Vec<String>, ip: &String) -> (b: bool)
    ensures
        b == names_address(addrs@, ip@),
{
    let mut i: usize = 0;
    while i < addrs.len()
        invariant
            i <= addrs@.len(),
            forall|j: int| 0 <= j < i ==> addrs@[j]@ != ip@,
        decreases addrs@.len() - i,
    {
        if addrs[i] == *ip {
            return true;
        }
        i = i + 1;
    }
    false
}

/// Points every finger whose node's address is one of `leaving` at the node
/// (`new_id`, `new_ip`) instead; the other fingers stay as they are.
pub fn replace_leaving_fingers(
    finger_table: &mut Vec<(u32, Node)>,
    leaving: &Vec<String>,
    new_id: u32,
    new_ip: &String,
)
    ensures
        fingers_redirected(old(finger_table)@, final(finger_table)@, leaving@, new_id, new_ip@),
        final(finger_table)@.len() == old(finger_table)@.len(),
        forall|i: int|
            #![trigger final(finger_table)@[i]]
            0 <= i < old(finger_table)@.len() && !names_address(leaving@, old(finger_table)@[i].1.ip@) ==> final(finger_table)@[i]
                == old(finger_table)@[i],
        forall|i: int|
            #![trigger final(finger_table)@[i]]
            0 <= i < old(finger_table)@.len() && names_address(leaving@, old(finger_table)@[i].1.ip@) ==> {
                &&& final(finger_table)@[i].0 == old(finger_table)@[i].0
                &&& final(finger_table)@[i].1.id == new_id
                &&& final(finger_table)@[i].1.ip@ == new_ip@
            },
{
    let mut i: usize = 0;
    while i < finger_table.len()
        invariant
            i <= finger_table@.len(),
            finger_table@.len() == old(finger_table)@.len(),
            forall|j: int|
                #![trigger finger_table@[j]]
                0 <= j < old(finger_table)@.len() ==> {
                    let o = old(finger_table)@[j];
                    let f = finger_table@[j];
                    &&& f.0 == o.0
                    &&& f.1.hashmap == o.1.hashmap
                    &&& f.1.resp_keys == o.1.resp_keys
                    &&& if j < i && names_address(leaving@, o.1.ip@) {
                        f.1.id == new_id && f.1.ip@ == new_ip@
                    } else {
                        f.1.id == o.1.id && f.1.ip == o.1.ip
                    }
                },
        decreases finger_table@.len() - i,
    {
        let ghost before = finger_table@;
        if holds_address(leaving, &finger_table[i].1.ip) {
            finger_table[i].1.id = new_id;
            finger_table[i].1.ip = new_ip.clone();
        }
        proof {
            assert forall|j: int|
                #![trigger finger_table@[j]]
                0 <= j < finger_table@.len() && j != i implies finger_table@[j] == before[j] by {}
        }
        i = i + 1;
    }
}

/// Replaces the successor list by the one received from the new successor, made
/// room for by dropping its last entry when it is full, with `head` put first.
pub fn update_successor_list(
    list: &mut Vec<Succ_list_node>,
    received: Vec<Succ_list_node>,
    head: Succ_list_node,
)
    ensures
        final(list)@ == refreshed_list(received@, head),
        final(list)@.len() >= 1,
        final(list)@[0] == head,
        received@.len() != KEY_SIZE ==> final(list)@.len() == received@.len() + 1,
        received@.len() == KEY_SIZE ==> final(list)@.len() == KEY_SIZE,
        forall|k: int|
            0 <= k < final(list)@.len() - 1 ==> #[trigger] final(list)@[k + 1] == received@[k],
{
    *list = received;
    if list.len() == KEY_SIZE as usize {
        list.pop();
    }
    list.insert(0, head);
    assert(list@ =~= refreshed_list(received@, head));
}

/// The address a joining node takes as its predecessor from its successor's
/// neighbor pair: the successor's predecessor, or, when that is empty (the
/// successor was alone), the successor's successor.
pub fn pick_predecessor_address(neighbors: &Vec<String>) -> (ip: String)
    requires
        neighbors@.len() >= 1,
        neighbors@[0]@.len() == 0 ==> neighbors@.len() >= 2,
    ensures
        ip@ == (if neighbors@[0]@.len() == 0 {
            neighbors@[1]@
        } else {
            neighbors@[0]@
        }),
{
    if neighbors[0].as_str().is_empty() {
        neighbors[1].clone()
    } else {
        neighbors[0].clone()
    }
}

/// The ring keys `0 .. CLUSTER_SIZE` in increasing order.
pub fn all_keys() -> (keys: Vec<u32>)
    ensures
        keys@ == key_run(0, CLUSTER_SIZE - 1),
{
    let mut keys: Vec<u32> = Vec::new();
    push_key_run(&mut keys, 0, CLUSTER_SIZE - 1);
    assert(keys@ =~= key_run(0, CLUSTER_SIZE - 1));
    keys
}

/// The finger table of a node that is alone on the ring: finger `i` starts at
/// `finger_start(node_id, i)` and holds the node itself.
pub fn initial_finger_table(node_id: u32, ip: &String) -> (ft: Vec<(u32, Node)>)
    ensures
        ft@.len() == KEY_SIZE,
        forall|i: int|
            #![trigger ft@[i]]
            0 <= i < KEY_SIZE ==> {
                &&& ft@[i].0 == finger_start(node_id, i as nat)
                &&& ft@[i].1.id == node_id
                &&& ft@[i].1.ip@ == ip@
                &&& ft@[i].1.hashmap@ == Map::<Seq<char>, String>::empty()
                &&& ft@[i].1.resp_keys@ == Seq::<u32>::empty()
            },
{
    let mut ft: Vec<(u32, Node)> = Vec::new();
    let mut pow: u32 = 1;
    let mut i: u32 = 0;
    while i < KEY_SIZE
        invariant
            i <= KEY_SIZE,
            i < KEY_SIZE ==> pow == two_pow(i as nat),
            ft@.len() == i,
            forall|j: int|
                #![trigger ft@[j]]
                0 <= j < i ==> {
                    &&& ft@[j].0 == finger_start(node_id, j as nat)
                    &&& ft@[j].1.id == node_id
                    &&& ft@[j].1.ip@ == ip@
                    &&& ft@[j].1.hashmap@ == Map::<Seq<char>, String>::empty()
                    &&& ft@[j].1.resp_keys@ == Seq::<u32>::empty()
                },
        decreases KEY_SIZE - i,
    {
        let start = start_of_finger(node_id, pow, Ghost(i as nat));
        ft.push((start, Node::new(node_id, ip.clone())));
        if i + 1 < KEY_SIZE {
            proof {
                crate::node::lemma_two_pow_bound(i as nat);
            }
            pow = pow * 2;
        }
        i = i + 1;
    }
    ft
}

/// The neighbors a node reports: its predecessor's address and its first finger's.
pub fn neighbors(prev: &NodePrev, finger_table: &Vec<(u32, Node)>) -> (n: Neighbors)
    requires
        finger_table@.len() > 0,
    ensures
        n.prev@ == prev.ip@,
        n.next@ == finger_table@[0].1.ip@,
{
    Neighbors { prev: prev.ip.clone(), next: finger_table[0].1.ip.clone() }
}

/// What a node reports about itself: its id, its first finger's address (empty
/// when it has no fingers) and the address of every finger, in order.
pub fn node_info(node: &Node, finger_table: &Vec<(u32, Node)>) -> (info: NodeInfo)
    ensures
        info.node_hash == node.id,
        info.successor@ == (if finger_table@.len() == 0 {
            Seq::<char>::empty()
        } else {
            finger_table@[0].1.ip@
        }),
        info.others@.len() == finger_table@.len(),
        forall|i: int|
            0 <= i < finger_table@.len() ==> #[trigger] info.others@[i]@ == finger_table@[i].1.ip@,
{
    let mut successor = String::new();
    let mut others: Vec<String> = Vec::new();
    if finger_table.len() != 0 {
        successor = finger_table[0].1.ip.clone();
        let mut i: usize = 0;
        while i < finger_table.len()
            invariant
                i <= finger_table@.len(),
                others@.len() == i,
                forall|j: int| 0 <= j < i ==> #[trigger] others@[j]@ == finger_table@[j].1.ip@,
            decreases finger_table@.len() - i,
        {
            others.push(finger_table[i].1.ip.clone());
            i = i + 1;
        }
    }
    NodeInfo { node_hash: node.id, successor, others }
}

/// What a forwarded read answered: `None` when the other node reported the key
/// missing (the text `Key not found`), else the value it returned.
pub fn forwarded_get_result(response: String) -> (r: Option<String>)
    ensures
        match r {
            Some(v) => v == response && response@ != "Key not found"@,
            None => response@ == "Key not found"@,
        },
{
    let missing = String::from_str("Key not found");
    if response == missing {
        None
    } else {
        Some(response)
    }
}

impl Node {
    /// Where a request for `key_id` goes: `Local` when this node answers for the key,
    /// else towards the address `find_successor_key` picks, or `NoSuccessor` when
    /// that address is empty.
    pub fn route_key(&self, finger_table: &Vec<(u32, Node)>, key_id: u32) -> (r: Route)
        requires
            finger_table@.len() > 0 || self.resp_keys@.contains(key_id),
        ensures
            match r {
                Route::Local => self.resp_keys@.contains(key_id),
                Route::Forward(ip) => !self.resp_keys@.contains(key_id) && ip@
                    == successor_address(finger_table@, key_id, self.id) && ip@.len() > 0,
                Route::NoSuccessor => !self.resp_keys@.contains(key_id) && successor_address(
                    finger_table@,
                    key_id,
                    self.id,
                ).len() == 0,
            },
    {
        if holds_key(&self.resp_keys, key_id) {
            Route::Local
        } else {
            match Node::find_successor_key(key_id, finger_table, self.id) {
                Some(ip) => Route::Forward(ip),
                None => Route::NoSuccessor,
            }
        }
    }

    /// A write of `data` under `key`, whose ring id is `key_id`: stored here (the
    /// store maps `key` to `data` afterwards) when this node answers for the key,
    /// reported as `Inserted` when the key was new and `Updated` when it replaced a
    /// value; otherwise left to the node the route names, the store unchanged.
    pub fn put_item(
        &mut self,
        finger_table: &Vec<(u32, Node)>,
        key_id: u32,
        key: String,
        data: String,
    ) -> (r: PutOutcome)
        requires
            finger_table@.len() > 0 || old(self).resp_keys@.contains(key_id),
        ensures
            final(self).id == old(self).id,
            final(self).ip == old(self).ip,
            final(self).resp_keys == old(self).resp_keys,
            final(self).hashmap@ == store_after_put(
                old(self).resp_keys@,
                old(self).hashmap@,
                key_id,
                key@,
                data,
            ),
            match r {
                PutOutcome::Inserted => old(self).resp_keys@.contains(key_id)
                    && !old(self).hashmap@.contains_key(key@) && final(self).hashmap@
                    == old(self).hashmap@.insert(key@, data),
                PutOutcome::Updated => old(self).resp_keys@.contains(key_id)
                    && old(self).hashmap@.contains_key(key@) && final(self).hashmap@
                    == old(self).hashmap@.insert(key@, data),
                PutOutcome::Forward(ip) => !old(self).resp_keys@.contains(key_id) && ip@
                    == successor_address(finger_table@, key_id, old(self).id) && ip@.len() > 0
                    && final(self).hashmap@ == old(self).hashmap@,
                PutOutcome::NoSuccessor => !old(self).resp_keys@.contains(key_id)
                    && successor_address(finger_table@, key_id, old(self).id).len() == 0
                    && final(self).hashmap@ == old(self).hashmap@,
            },
    {
        match self.route_key(finger_table, key_id) {
            Route::Local => {
                let existed = self.hashmap.contains_key(key.as_str());
                self.hashmap.insert(key, data);
                if existed {
                    PutOutcome::Updated
                } else {
                    PutOutcome::Inserted
                }
            },
            Route::Forward(ip) => PutOutcome::Forward(ip),
            Route::NoSuccessor => PutOutcome::NoSuccessor,
        }
    }

    /// Where a query for the successor of the node at `addr` goes: `Local` (this node
    /// answers with its own address) when `addr` is this node's own address or this
    /// node answers for the id of `addr`; else towards the address `find_successor_key`
    /// picks for that id, or `NoSuccessor` when that address is empty.
    pub fn route_address(&self, finger_table: &Vec<(u32, Node)>, addr: String) -> (r: Route)
        requires
            finger_table@.len() > 0 || addr@ == self.ip@ || self.resp_keys@.contains(
                spec_hash(addr@),
            ),
        ensures
            match r {
                Route::Local => addr@ == self.ip@ || self.resp_keys@.contains(spec_hash(addr@)),
                Route::Forward(ip) => addr@ != self.ip@ && !self.resp_keys@.contains(
                    spec_hash(addr@),
                ) && ip@ == successor_address(finger_table@, spec_hash(addr@), self.id)
                    && ip@.len() > 0,
                Route::NoSuccessor => addr@ != self.ip@ && !self.resp_keys@.contains(
                    spec_hash(addr@),
                ) && successor_address(finger_table@, spec_hash(addr@), self.id).len() == 0,
            },
    {
        if addr == self.ip {
            Route::Local
        } else {
            let id = Node::hash_function(addr);
            self.route_key(finger_table, id)
        }
    }

    /// A read of `key`, whose ring id is `key_id`: the stored value when this node
    /// answers for the key (`Missing` when it holds none), otherwise the address of
    /// the node to ask.
    pub fn get_item(&self, finger_table: &Vec<(u32, Node)>, key_id: u32, key: &str) -> (r:
        ItemLookup)
        requires
            finger_table@.len() > 0 || self.resp_keys@.contains(key_id),
        ensures
            local_read(self.resp_keys@, self.hashmap@, key_id, key@) == match r {
                ItemLookup::Found(v) => Some(Some(v)),
                ItemLookup::Missing => Some(None),
                _ => None::<Option<String>>,
            },
            match r {
                ItemLookup::Found(v) => self.resp_keys@.contains(key_id)
                    && self.hashmap@.contains_key(key@) && v == self.hashmap@[key@],
                ItemLookup::Missing => self.resp_keys@.contains(key_id)
                    && !self.hashmap@.contains_key(key@),
                ItemLookup::Forward(ip) => !self.resp_keys@.contains(key_id) && ip@
                    == successor_address(finger_table@, key_id, self.id) && ip@.len() > 0,
                ItemLookup::NoSuccessor => !self.resp_keys@.contains(key_id) && successor_address(
                    finger_table@,
                    key_id,
                    self.id,
                ).len() == 0,
            },
    {
        match self.route_key(finger_table, key_id) {
            Route::Local => match self.hashmap.get(key) {
                Some(v) => ItemLookup::Found(v.clone()),
                None => ItemLookup::Missing,
            },
            Route::Forward(ip) => ItemLookup::Forward(ip),
            Route::NoSuccessor => ItemLookup::NoSuccessor,
        }
    }

    /// Takes `pred_ip` as the node's predecessor and recomputes the keys the node
    /// answers for: exactly `filled_keys(id of pred_ip, node id)`.
    pub fn adopt_predecessor(node: &mut Node, prev: &mut NodePrev, pred_ip: String)
        ensures
            final(prev).ip == pred_ip,
            final(prev).id == spec_hash(pred_ip@),
            final(node).resp_keys@ == filled_keys(spec_hash(pred_ip@), old(node).id),
            final(node).id == old(node).id,
            final(node).ip == old(node).ip,
            final(node).hashmap == old(node).hashmap,
    {
        prev.id = Node::hash_function(pred_ip.clone());
        prev.ip = pred_ip;
        node.resp_keys.clear();
        let node_id = node.id;
        Node::fill_hashmap(node, prev.id, node_id);
        assert(node.resp_keys@ =~= filled_keys(spec_hash(prev.ip@), node_id));
    }

    /// The finger update of a node that joins through `successor`: the first finger
    /// holds the successor, every other finger takes it when it lies closer after
    /// the finger's start (see `relax_fingers_from`).
    pub fn join_update_fingers(finger_table: &mut Vec<(u32, Node)>, node_id: u32, successor: &String)
        requires
            old(finger_table)@.len() > 0,
        ensures
            final(finger_table)@.len() == old(finger_table)@.len(),
            final(finger_table)@[0].0 == old(finger_table)@[0].0,
            final(finger_table)@[0].1.id == spec_hash(successor@),
            final(finger_table)@[0].1.ip@ == successor@,
            final(finger_table)@[0].1.hashmap == old(finger_table)@[0].1.hashmap,
            final(finger_table)@[0].1.resp_keys == old(finger_table)@[0].1.resp_keys,
            forall|i: int|
                #![trigger final(finger_table)@[i]]
                1 <= i < old(finger_table)@.len() ==> {
                    let o = old(finger_table)@[i];
                    let f = final(finger_table)@[i];
                    &&& f.0 == o.0
                    &&& f.1.hashmap == o.1.hashmap
                    &&& f.1.resp_keys == o.1.resp_keys
                    &&& if ring_gap(o.0, o.1.id) <= ring_gap(o.0, spec_hash(successor@)) {
                        f.1.id == o.1.id && f.1.ip == o.1.ip
                    } else {
                        f.1.id == spec_hash(successor@) && f.1.ip@ == successor@
                    }
                },
    {
        let succ_id = Node::hash_function(successor.clone());
        finger_table[0].1.ip = successor.clone();
        finger_table[0].1.id = succ_id;
        let ghost mid = finger_table@;
        relax_fingers_from(finger_table, node_id, succ_id, successor, 1);
        proof {
            assert forall|i: int|
                #![trigger finger_table@[i]]
                1 <= i < old(finger_table)@.len() implies old(finger_table)@[i] == mid[i] by {}
        }
    }

    /// The state of a node that leaves the ring: it answers for every key again, all
    /// its fingers hold itself, and it forgets its predecessor.
    pub fn leave_ring(node: &mut Node, finger_table: &mut Vec<(u32, Node)>, prev: &mut NodePrev)
        ensures
            final(node).resp_keys@ == key_run(0, CLUSTER_SIZE - 1),
            final(node).id == old(node).id,
            final(node).ip == old(node).ip,
            final(node).hashmap == old(node).hashmap,
            final(finger_table)@.len() == old(finger_table)@.len(),
            forall|i: int|
                #![trigger final(finger_table)@[i]]
                0 <= i < old(finger_table)@.len() ==> {
                    let o = old(finger_table)@[i];
                    let f = final(finger_table)@[i];
                    &&& f.0 == o.0
                    &&& f.1.hashmap == o.1.hashmap
                    &&& f.1.resp_keys == o.1.resp_keys
                    &&& f.1.id == old(node).id
                    &&& f.1.ip@ == old(node).ip@
                },
            final(prev).id == 0,
            final(prev).ip@.len() == 0,
    {
        node.resp_keys = all_keys();
        let mut i: usize = 0;
        while i < finger_table.len()
            invariant
                i <= finger_table@.len(),
                finger_table@.len() == old(finger_table)@.len(),
                forall|j: int|
                    #![trigger finger_table@[j]]
                    0 <= j < old(finger_table)@.len() ==> {
                        let o = old(finger_table)@[j];
                        let f = finger_table@[j];
                        &&& f.0 == o.0
                        &&& f.1.hashmap == o.1.hashmap
                        &&& f.1.resp_keys == o.1.resp_keys
                        &&& j < i ==> f.1.id == node.id && f.1.ip@ == node.ip@
                        &&& j >= i ==> f.1 == o.1
                    },
            decreases finger_table@.len() - i,
        {
            let ghost before = finger_table@;
            finger_table[i].1.id = node.id;
            finger_table[i].1.ip = node.ip.clone();
            proof {
                assert forall|j: int|
                    #![trigger finger_table@[j]]
                    0 <= j < finger_table@.len() && j != i implies finger_table@[j] == before[j] by {}
            }
            i = i + 1;
        }
        prev.ip = String::new();
        prev.id = 0;
    }
    /// A node learns that nodes left the ring and that `new_successor` is now its
    /// successor: the successor list is refreshed from `received` with the new
    /// successor first, fingers that held a leaving address hold the new successor,
    /// and the result says whether the notice goes on to the predecessor (it stops
    /// once it reaches the new successor itself).
    pub fn handle_predecessor_leave(
        node_id: u32,
        finger_table: &mut Vec<(u32, Node)>,
        succ_list: &mut Vec<Succ_list_node>,
        new_successor: String,
        leaving: &Vec<String>,
        received: Vec<Succ_list_node>,
    ) -> (forward: bool)
        ensures
            forward == (spec_hash(new_successor@) != node_id),
            final(succ_list)@[0].id == spec_hash(new_successor@),
            final(succ_list)@[0].ip == new_successor,
            final(succ_list)@ == refreshed_list(received@, final(succ_list)@[0]),
            fingers_redirected(
                old(finger_table)@,
                final(finger_table)@,
                leaving@,
                spec_hash(new_successor@),
                new_successor@,
            ),
            forall|i: int|
                #![trigger final(finger_table)@[i]]
                0 <= i < old(finger_table)@.len() && !names_address(leaving@, old(finger_table)@[i].1.ip@)
                    ==> final(finger_table)@[i] == old(finger_table)@[i],
            forall|i: int|
                #![trigger final(finger_table)@[i]]
                0 <= i < old(finger_table)@.len() && names_address(leaving@, old(finger_table)@[i].1.ip@)
                    ==> {
                    &&& final(finger_table)@[i].0 == old(finger_table)@[i].0
                    &&& final(finger_table)@[i].1.id == spec_hash(new_successor@)
                    &&& final(finger_table)@[i].1.ip@ == new_successor@
                },
            received@.len() != KEY_SIZE ==> final(succ_list)@.len() == received@.len() + 1,
            received@.len() == KEY_SIZE ==> final(succ_list)@.len() == KEY_SIZE,
            forall|k: int|
                0 <= k < final(succ_list)@.len() - 1 ==> #[trigger] final(succ_list)@[k + 1]
                    == received@[k],
    {
        let new_id = Node::hash_function(new_successor.clone());
        replace_leaving_fingers(finger_table, leaving, new_id, &new_successor);
        let head = Succ_list_node::new(new_id, new_successor);
        update_successor_list(succ_list, received, head);
        new_id != node_id
    }

    /// A node is told that `candidate` may be a closer successor: every finger takes
    /// the candidate when it lies closer after the finger's start, the successor
    /// list is refreshed from `received` with the (new) first finger first, and the
    /// result says whether the notice goes on to the predecessor (not when the
    /// predecessor is the candidate itself).
    pub fn handle_successor_notice(
        node_id: u32,
        prev_id: u32,
        finger_table: &mut Vec<(u32, Node)>,
        succ_list: &mut Vec<Succ_list_node>,
        candidate: String,
        received: Vec<Succ_list_node>,
    ) -> (forward: bool)
        requires
            old(finger_table)@.len() > 0,
        ensures
            forward == (prev_id != spec_hash(candidate@)),
            fingers_relaxed(
                old(finger_table)@,
                final(finger_table)@,
                spec_hash(candidate@),
                candidate@,
                0,
            ),
            final(succ_list)@[0].id == final(finger_table)@[0].1.id,
            final(succ_list)@[0].ip == final(finger_table)@[0].1.ip,
            received@.len() != KEY_SIZE ==> final(succ_list)@.len() == received@.len() + 1,
            received@.len() == KEY_SIZE ==> final(succ_list)@.len() == KEY_SIZE,
            forall|k: int|
                0 <= k < final(succ_list)@.len() - 1 ==> #[trigger] final(succ_list)@[k + 1]
                    == received@[k],
            final(succ_list)@ == refreshed_list(received@, final(succ_list)@[0]),
    {
        let cand_id = Node::hash_function(candidate.clone());
        relax_fingers_from(finger_table, node_id, cand_id, &candidate, 0);
        let head = Succ_list_node::new(finger_table[0].1.id, finger_table[0].1.ip.clone());
        update_successor_list(succ_list, received, head);
        prev_id != cand_id
    }

    /// The repair a node makes when its successor stopped answering and `alive`, an
    /// entry of its successor list, still does: the successor list is refreshed from
    /// `received` (the list `alive` sent) with `alive` first, and every finger that
    /// held one of the `leaving` addresses holds `alive`.
    pub fn repair_after_failure(
        finger_table: &mut Vec<(u32, Node)>,
        succ_list: &mut Vec<Succ_list_node>,
        leaving: &Vec<String>,
        alive_id: u32,
        alive_ip: String,
        received: Vec<Succ_list_node>,
    )
        ensures
            final(succ_list)@.len() >= 1,
            final(succ_list)@[0].id == alive_id,
            final(succ_list)@[0].ip == alive_ip,
            final(succ_list)@ == refreshed_list(received@, final(succ_list)@[0]),
            fingers_redirected(old(finger_table)@, final(finger_table)@, leaving@, alive_id, alive_ip@),
            forall|i: int|
                #![trigger final(finger_table)@[i]]
                0 <= i < old(finger_table)@.len() && !names_address(leaving@, old(finger_table)@[i].1.ip@)
                    ==> final(finger_table)@[i] == old(finger_table)@[i],
            forall|i: int|
                #![trigger final(finger_table)@[i]]
                0 <= i < old(finger_table)@.len() && names_address(leaving@, old(finger_table)@[i].1.ip@)
                    ==> {
                    &&& final(finger_table)@[i].0 == old(finger_table)@[i].0
                    &&& final(finger_table)@[i].1.id == alive_id
                    &&& final(finger_table)@[i].1.ip@ == alive_ip@
                },
            received@.len() != KEY_SIZE ==> final(succ_list)@.len() == received@.len() + 1,
            received@.len() == KEY_SIZE ==> final(succ_list)@.len() == KEY_SIZE,
            forall|k: int|
                0 <= k < final(succ_list)@.len() - 1 ==> #[trigger] final(succ_list)@[k + 1]
                    == received@[k],
    {
        let head = Succ_list_node::new(alive_id, alive_ip.clone());
        update_successor_list(succ_list, received, head);
        replace_leaving_fingers(finger_table, leaving, alive_id, &alive_ip);
    }
}

} // verus!
