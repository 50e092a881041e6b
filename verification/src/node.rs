//! A node of the ring: its identity, the keys it answers for and its store,
//! with the rules that read an address listing and build a finger table.
use vstd::prelude::*;
use vstd::hash_map::StringHashMap;
use crate::keyspace::{ring_size, CLUSTER_SIZE, KEY_SIZE};
use crate::digest::{key_of_text, text_key};
use crate::text::{chars_of, field_spans, line_spans, text_lines, ws_fields};

verus! {

/// A node of the cluster: its id, its address, its store and the keys it answers for.
pub struct Node {
    pub id: u32,
    pub ip: String,
    pub hashmap: StringHashMap<String>,
    pub resp_keys: Vec<u32>,
}

/// The predecessor of a node, by id and address.
#[derive(Debug, Clone, PartialEq, Eq)]
pub struct NodePrev {
    pub id: u32,
    pub ip: String,
}

/// One entry of a node's successor list.
#[derive(Debug, Clone)]
pub struct Succ_list_node {
    pub id: u32,
    pub ip: String,
}

impl NodePrev {
    pub fn new(id: u32, ip: String) -> (r: Self)
        ensures
            r.id == id,
            r.ip == ip,
    {
        NodePrev { id, ip }
    }
}

impl Succ_list_node {
    pub fn new(id: u32, ip: String) -> (r: Self)
        ensures
            r.id == id,
            r.ip == ip,
    {
        Succ_list_node { id, ip }
    }
}

/// The id under which an address or a storage key is placed on the ring.
pub open spec fn spec_hash(s: Seq<char>) -> u32 {
    text_key(s) as u32
}

/// What `_parse_line` makes of a line: with exactly three whitespace-separated
/// fields, the third is an address and it is returned with its ring id.
pub open spec fn parsed_line(line: Seq<char>) -> Option<(u32, Seq<char>)> {
    let f = ws_fields(line);
    if f.len() == 3 {
        Some((spec_hash(f[2]), f[2]))
    } else {
        None
    }
}

/// Parses a line of the address listing to get the id and address of a node:
/// `Some((id, ip))` when the line holds exactly three whitespace-separated
/// fields (the third is the address), `None` otherwise.
pub fn _parse_line(line: &str) -> (r: Option<(u32, &str)>)
    ensures
        match r {
            Some((id, ip)) => parsed_line(line@) == Some((id, ip@)),
            None => parsed_line(line@) is None,
        },
{
    let chars = chars_of(line);
    let spans = field_spans(&chars);
    if spans.len() == 3 {
        let (a, b) = spans[2];
        let ip = line.substring_char(a, b);
        let id = Node::hash_function(String::from_str(ip));
        Some((id, ip))
    } else {
        None
    }
}

/// The keys `lo ..= hi` in increasing order (none when `lo > hi`).
pub open spec fn key_run(lo: int, hi: int) -> Seq<u32> {
    Seq::new(if lo <= hi { (hi - lo + 1) as nat } else { 0 }, |j: int| (lo + j) as u32)
}

/// The keys that `fill_hashmap` hands to a node with id `current` whose predecessor
/// has id `previous`: `previous + 1 ..= current` when `previous < current`; otherwise
/// `previous + 1 ..= CLUSTER_SIZE` followed, when `previous > current`, by `0 ..= current`.
/// (`previous + 1` wraps to 0 when `previous` is `u32::MAX`.)
pub open spec fn filled_keys(previous: u32, current: u32) -> Seq<u32> {
    let start: int = if previous == u32::MAX { 0 } else { previous + 1 };
    if previous < current {
        key_run(start, current as int)
    } else if previous > current {
        key_run(start, ring_size()) + key_run(0, current as int)
    } else {
        key_run(start, ring_size())
    }
}

/// Clockwise distance on the 32-bit ring from `from` to `to`.
pub open spec fn ring_gap(from: u32, to: u32) -> int {
    (to as int - from as int) % 0x1_0000_0000
}

/// Appends to `keys` the keys `lo ..= hi`.
pub(crate) fn push_key_run(keys: &mut Vec<u32>, lo: u32, hi: u32)
    ensures
        final(keys)@ == old(keys)@ + key_run(lo as int, hi as int),
{
    let ghost base = keys@;
    let mut k: u64 = lo as u64;
    while k <= hi as u64
        invariant
            lo <= k <= hi as u64 + 1 || (k == lo && lo > hi),
            keys@ == base + key_run(lo as int, k - 1),
        decreases hi as u64 + 1 - k,
    {
        keys.push(k as u32);
        k = k + 1;
        assert(keys@ =~= base + key_run(lo as int, k - 1));
    }
    assert(keys@ =~= base + key_run(lo as int, hi as int));
}

/// Whether `key` lies on the arc that the first finger of a node with id
/// `current` covers, the first finger's node having id `succ`: `current ..= CLUSTER_SIZE`
/// or `0 ..= succ` when that arc wraps (`succ < current`), else `current .. succ`.
pub open spec fn in_first_arc(key: u32, current: u32, succ: u32) -> bool {
    if succ < current {
        (current <= key && key <= CLUSTER_SIZE) || key <= succ
    } else {
        current <= key && key < succ
    }
}

/// Among the fingers whose node id is at most `bound`, the index of the one that a
/// stable sort of the table by node id puts last: the largest such id, and the
/// latest finger among those that share it. `None` when no id is at most `bound`.
pub open spec fn last_at_most(ft: Seq<(u32, Node)>, bound: u32) -> Option<int>
    decreases ft.len(),
{
    if ft.len() == 0 {
        None
    } else {
        let prev = last_at_most(ft.drop_last(), bound);
        let j = ft.len() - 1;
        if ft[j].1.id <= bound && (prev is None || ft[prev->0].1.id <= ft[j].1.id) {
            Some(j)
        } else {
            prev
        }
    }
}

/// The address that `find_successor_key` settles on (empty when it finds none):
/// the first finger's address when `key` lies on its arc; else the address of the
/// finger with the largest id not above `key`; else that of the finger with the
/// largest id. A step that yields an empty address passes to the next one.
pub open spec fn successor_address(ft: Seq<(u32, Node)>, key: u32, current: u32) -> Seq<char> {
    let first: Seq<char> = if in_first_arc(key, current, ft[0].1.id) {
        ft[0].1.ip@
    } else {
        Seq::empty()
    };
    let below: Seq<char> = if first.len() != 0 {
        first
    } else {
        match last_at_most(ft, key) {
            Some(j) => ft[j].1.ip@,
            None => Seq::empty(),
        }
    };
    if below.len() != 0 {
        below
    } else {
        match last_at_most(ft, u32::MAX) {
            Some(j) => ft[j].1.ip@,
            None => Seq::empty(),
        }
    }
}

/// The index `last_at_most(ft, bound)` names, computed by one pass over the table.
fn scan_last_at_most(ft: &Vec<(u32, Node)>, bound: u32) -> (r: Option<usize>)
    ensures
        match r {
            Some(j) => j < ft@.len() && last_at_most(ft@, bound) == Some(j as int),
            None => last_at_most(ft@, bound) is None,
        },
{
    let mut best: Option<usize> = None;
    let mut i: usize = 0;
    while i < ft.len()
        invariant
            i <= ft@.len(),
            match best {
                Some(j) => j < i && last_at_most(ft@.take(i as int), bound) == Some(j as int),
                None => last_at_most(ft@.take(i as int), bound) is None,
            },
        decreases ft@.len() - i,
    {
        let ghost t = ft@.take(i as int + 1);
        assert(t.drop_last() =~= ft@.take(i as int));
        let id = ft[i].1.id;
        let take = match best {
            Some(j) => id <= bound && ft[j].1.id <= id,
            None => id <= bound,
        };
        if take {
            best = Some(i);
        }
        i = i + 1;
    }
    assert(ft@.take(ft@.len() as int) =~= ft@);
    best
}

/// The (id, address) pairs of a list of nodes.
pub open spec fn entries_of(nodes: Seq<NodePrev>) -> Seq<(u32, Seq<char>)> {
    nodes.map_values(|n: NodePrev| (n.id, n.ip@))
}

/// The nodes named by the first `n` lines of an address listing: each line that
/// `_parse_line` accepts gives one (id, address) pair.
pub open spec fn listed_nodes(contents: Seq<char>, n: u32) -> Set<(u32, Seq<char>)> {
    let lines = text_lines(contents);
    Set::new(
        |p: (u32, Seq<char>)|
            exists|i: int| 0 <= i < lines.len() && i < n && parsed_line(lines[i]) == Some(p),
    )
}

/// Whether one of the first `n` lines of the listing names a node.
pub open spec fn has_node_line(contents: Seq<char>, n: u32) -> bool {
    let lines = text_lines(contents);
    exists|i: int| 0 <= i < lines.len() && i < n && ws_fields(#[trigger] lines[i]).len() == 3
}

/// Whether `nodes` already holds the pair (`id`, `ip`).
fn holds_entry(nodes: &Vec<NodePrev>, id: u32, ip: &String) -> (b: bool)
    ensures
        b == entries_of(nodes@).contains((id, ip@)),
{
    let mut k: usize = 0;
    while k < nodes.len()
        invariant
            k <= nodes@.len(),
            forall|j: int| 0 <= j < k ==> entries_of(nodes@)[j] != (id, ip@),
        decreases nodes@.len() - k,
    {
        if nodes[k].id == id && nodes[k].ip == *ip {
            assert(entries_of(nodes@)[k as int] == (id, ip@));
            return true;
        }
        k = k + 1;
    }
    false
}

/// The distinct nodes named by the first `number_of_nodes` lines of an address
/// listing, each once, in the order in which they first appear.
pub fn parse_listing(contents: &str, number_of_nodes: u32) -> (nodes: Vec<NodePrev>)
    ensures
        entries_of(nodes@).no_duplicates(),
        entries_of(nodes@).to_set() == listed_nodes(contents@, number_of_nodes),
        forall|p: (u32, Seq<char>)|
            entries_of(nodes@).contains(p) <==> exists|i: int|
                0 <= i < text_lines(contents@).len() && i < number_of_nodes && parsed_line(
                    #[trigger] text_lines(contents@)[i],
                ) == Some(p),
{
    let chars = chars_of(contents);
    let spans = line_spans(&chars);
    let ghost lines = text_lines(contents@);
    let mut nodes: Vec<NodePrev> = Vec::new();
    let mut i: usize = 0;
    while i < spans.len() && (i as u64) < (number_of_nodes as u64)
        invariant
            chars@ == contents@,
            spans@.len() == lines.len(),
            lines == text_lines(contents@),
            forall|k: int|
                #![trigger spans@[k]]
                0 <= k < spans@.len() ==> {
                    &&& spans@[k].0 <= spans@[k].1 <= chars@.len()
                    &&& chars@.subrange(spans@[k].0 as int, spans@[k].1 as int) == lines[k]
                },
            i <= spans@.len(),
            i <= number_of_nodes,
            entries_of(nodes@).no_duplicates(),
            forall|p: (u32, Seq<char>)|
                entries_of(nodes@).contains(p) <==> exists|j: int|
                    0 <= j < i && parsed_line(lines[j]) == Some(p),
        decreases spans@.len() - i,
    {
        let (a, b) = spans[i];
        let line = contents.substring_char(a, b);
        assert(line@ == lines[i as int]);
        let ghost before = entries_of(nodes@);
        assert(forall|p: (u32, Seq<char>)|
            before.contains(p) <==> exists|j: int|
                0 <= j < i && parsed_line(lines[j]) == Some(p));
        match _parse_line(line) {
            Some((id, ip)) => {
                let ip_owned = String::from_str(ip);
                if !holds_entry(&nodes, id, &ip_owned) {
                    nodes.push(NodePrev::new(id, ip_owned));
                    assert(entries_of(nodes@) =~= before.push((id, ip@)));
                }
            },
            None => {},
        }
        i = i + 1;
        assert forall|p: (u32, Seq<char>)|
            entries_of(nodes@).contains(p) <==> exists|j: int|
                0 <= j < i && parsed_line(lines[j]) == Some(p) by {
            if entries_of(nodes@).contains(p) {
                if before.contains(p) {
                    let j = choose|j: int| 0 <= j < i - 1 && parsed_line(lines[j]) == Some(p);
                    assert(0 <= j < i && parsed_line(lines[j]) == Some(p));
                } else {
                    assert(parsed_line(lines[i - 1]) == Some(p));
                }
            }
            if exists|j: int| 0 <= j < i && parsed_line(lines[j]) == Some(p) {
                let j = choose|j: int| 0 <= j < i && parsed_line(lines[j]) == Some(p);
                if j < i - 1 {
                    assert(before.contains(p));
                    let w = choose|w: int| 0 <= w < before.len() && before[w] == p;
                    assert(entries_of(nodes@)[w] == p);
                } else {
                    assert(parsed_line(line@) == Some(p));
                    if !before.contains(p) {
                        assert(entries_of(nodes@)[before.len() as int] == p);
                    } else {
                        let w = choose|w: int| 0 <= w < before.len() && before[w] == p;
                        assert(entries_of(nodes@)[w] == p);
                    }
                }
            }
        }
    }
    assert forall|p: (u32, Seq<char>)|
        entries_of(nodes@).contains(p) <==> exists|j: int|
            0 <= j < lines.len() && j < number_of_nodes && parsed_line(#[trigger] lines[j])
                == Some(p) by {
        if exists|j: int| 0 <= j < lines.len() && j < number_of_nodes && parsed_line(lines[j])
            == Some(p) {
            let j = choose|j: int|
                0 <= j < lines.len() && j < number_of_nodes && parsed_line(lines[j]) == Some(p);
            assert(j < i);
        }
    }
    assert(entries_of(nodes@).to_set() =~= listed_nodes(contents@, number_of_nodes));
    nodes
}

/// `2^i`.
pub open spec fn two_pow(i: nat) -> nat
    decreases i,
{
    if i == 0 {
        1
    } else {
        2 * two_pow((i - 1) as nat)
    }
}

/// The key at which the `i`-th finger of the node with id `node_id` starts:
/// `(node_id + 2^i) mod CLUSTER_SIZE`.
pub open spec fn finger_start(node_id: u32, i: nat) -> u32 {
    ((node_id + two_pow(i)) % ring_size()) as u32
}

/// Whether `id` is what a walk up the ring from `start` first meets among `nodes`:
/// the least id not below `start`, or, when there is none, the least id of all.
pub open spec fn is_ring_successor(nodes: Seq<NodePrev>, start: u32, id: u32) -> bool {
    if exists|k: int| 0 <= k < nodes.len() && nodes[k].id >= start {
        &&& id >= start
        &&& forall|k: int| 0 <= k < nodes.len() && nodes[k].id >= start ==> id <= nodes[k].id
    } else {
        forall|k: int| 0 <= k < nodes.len() ==> id <= nodes[k].id
    }
}

/// Whether `id` is what a walk down the ring from `node_id` first meets among `nodes`:
/// the greatest id below `node_id`, or, when there is none, the greatest id of all.
pub open spec fn is_ring_predecessor(nodes: Seq<NodePrev>, node_id: u32, id: u32) -> bool {
    if exists|k: int| 0 <= k < nodes.len() && nodes[k].id < node_id {
        &&& id < node_id
        &&& forall|k: int| 0 <= k < nodes.len() && nodes[k].id < node_id ==> nodes[k].id <= id
    } else {
        forall|k: int| 0 <= k < nodes.len() ==> nodes[k].id <= id
    }
}

/// The index of a node whose id is the ring successor of `start` among `nodes`.
fn successor_index(nodes: &Vec<NodePrev>, start: u32) -> (r: usize)
    requires
        nodes@.len() > 0,
    ensures
        r < nodes@.len(),
        is_ring_successor(nodes@, start, nodes@[r as int].id),
{
    let mut at_or_after: Option<usize> = None;
    let mut least: usize = 0;
    let mut k: usize = 1;
    if nodes[0].id >= start {
        at_or_after = Some(0);
    }
    while k < nodes.len()
        invariant
            1 <= k <= nodes@.len(),
            least < k,
            forall|j: int| 0 <= j < k ==> nodes@[least as int].id <= nodes@[j].id,
            match at_or_after {
                Some(a) => a < k && nodes@[a as int].id >= start && forall|j: int|
                    0 <= j < k && nodes@[j].id >= start ==> nodes@[a as int].id <= nodes@[j].id,
                None => forall|j: int| 0 <= j < k ==> nodes@[j].id < start,
            },
        decreases nodes@.len() - k,
    {
        let id = nodes[k].id;
        if id < nodes[least].id {
            least = k;
        }
        if id >= start {
            match at_or_after {
                Some(a) => {
                    if id < nodes[a].id {
                        at_or_after = Some(k);
                    }
                },
                None => {
                    at_or_after = Some(k);
                },
            }
        }
        k = k + 1;
    }
    match at_or_after {
        Some(a) => a,
        None => least,
    }
}

/// The index of a node whose id is the ring predecessor of `node_id` among `nodes`.
fn predecessor_index(nodes: &Vec<NodePrev>, node_id: u32) -> (r: usize)
    requires
        nodes@.len() > 0,
    ensures
        r < nodes@.len(),
        is_ring_predecessor(nodes@, node_id, nodes@[r as int].id),
{
    let mut below: Option<usize> = None;
    let mut greatest: usize = 0;
    let mut k: usize = 1;
    if nodes[0].id < node_id {
        below = Some(0);
    }
    while k < nodes.len()
        invariant
            1 <= k <= nodes@.len(),
            greatest < k,
            forall|j: int| 0 <= j < k ==> nodes@[j].id <= nodes@[greatest as int].id,
            match below {
                Some(a) => a < k && nodes@[a as int].id < node_id && forall|j: int|
                    0 <= j < k && nodes@[j].id < node_id ==> nodes@[j].id <= nodes@[a as int].id,
                None => forall|j: int| 0 <= j < k ==> nodes@[j].id >= node_id,
            },
        decreases nodes@.len() - k,
    {
        let id = nodes[k].id;
        if id > nodes[greatest].id {
            greatest = k;
        }
        if id < node_id {
            match below {
                Some(a) => {
                    if id > nodes[a].id {
                        below = Some(k);
                    }
                },
                None => {
                    below = Some(k);
                },
            }
        }
        k = k + 1;
    }
    match below {
        Some(a) => a,
        None => greatest,
    }
}

/// The key at which the `i`-th finger of `node_id` starts, computed as
/// `(node_id + 2^i) mod CLUSTER_SIZE` with the addition wrapping at 32 bits.
pub(crate) fn start_of_finger(node_id: u32, pow: u32, Ghost(i): Ghost<nat>) -> (r: u32)
    requires
        pow == two_pow(i),
    ensures
        r == finger_start(node_id, i),
{
    let sum = node_id.wrapping_add(pow);
    assert((sum as int) % ring_size() == (node_id + pow) % ring_size()) by {
        if node_id + pow > u32::MAX {
            assert(sum == node_id + pow - 0x1_0000_0000);
            assert((node_id + pow - 4096 * ring_size()) % ring_size() == (node_id + pow)
                % ring_size()) by (nonlinear_arith);
        }
    }
    sum % CLUSTER_SIZE
}

/// `is_ring_successor` over a set of listed (id, address) pairs.
pub open spec fn is_ring_successor_listed(nodes: Set<(u32, Seq<char>)>, start: u32, id: u32) -> bool {
    if exists|p: (u32, Seq<char>)| nodes.contains(p) && p.0 >= start {
        &&& id >= start
        &&& forall|p: (u32, Seq<char>)| nodes.contains(p) && p.0 >= start ==> id <= p.0
    } else {
        forall|p: (u32, Seq<char>)| nodes.contains(p) ==> id <= p.0
    }
}

/// `is_ring_predecessor` over a set of listed (id, address) pairs.
pub open spec fn is_ring_predecessor_listed(nodes: Set<(u32, Seq<char>)>, node_id: u32, id: u32) -> bool {
    if exists|p: (u32, Seq<char>)| nodes.contains(p) && p.0 < node_id {
        &&& id < node_id
        &&& forall|p: (u32, Seq<char>)| nodes.contains(p) && p.0 < node_id ==> p.0 <= id
    } else {
        forall|p: (u32, Seq<char>)| nodes.contains(p) ==> p.0 <= id
    }
}

proof fn lemma_entry_index(nodes: Seq<NodePrev>, p: (u32, Seq<char>)) -> (k: int)
    requires
        entries_of(nodes).to_set().contains(p),
    ensures
        0 <= k < nodes.len(),
        nodes[k].id == p.0,
        nodes[k].ip@ == p.1,
{
    assert(entries_of(nodes).contains(p));
    let k = choose|k: int| 0 <= k < entries_of(nodes).len() && entries_of(nodes)[k] == p;
    k
}

proof fn lemma_successor_listed(nodes: Seq<NodePrev>, start: u32, k: int)
    requires
        0 <= k < nodes.len(),
        is_ring_successor(nodes, start, nodes[k].id),
    ensures
        is_ring_successor_listed(entries_of(nodes).to_set(), start, nodes[k].id),
        entries_of(nodes).to_set().contains((nodes[k].id, nodes[k].ip@)),
{
    let set = entries_of(nodes).to_set();
    assert(entries_of(nodes)[k] == (nodes[k].id, nodes[k].ip@));
    assert forall|p: (u32, Seq<char>)| set.contains(p) && p.0 >= start implies nodes[k].id <= p.0 by {
        let j = lemma_entry_index(nodes, p);
    }
    if exists|p: (u32, Seq<char>)| set.contains(p) && p.0 >= start {
        let p = choose|p: (u32, Seq<char>)| set.contains(p) && p.0 >= start;
        let j = lemma_entry_index(nodes, p);
        assert(nodes[j].id >= start);
    } else {
        assert forall|j: int| 0 <= j < nodes.len() implies nodes[j].id < start by {
            assert(set.contains(entries_of(nodes)[j]));
        }
        assert forall|p: (u32, Seq<char>)| set.contains(p) implies nodes[k].id <= p.0 by {
            let j = lemma_entry_index(nodes, p);
        }
    }
}

proof fn lemma_predecessor_listed(nodes: Seq<NodePrev>, node_id: u32, k: int)
    requires
        0 <= k < nodes.len(),
        is_ring_predecessor(nodes, node_id, nodes[k].id),
    ensures
        is_ring_predecessor_listed(entries_of(nodes).to_set(), node_id, nodes[k].id),
        entries_of(nodes).to_set().contains((nodes[k].id, nodes[k].ip@)),
{
    let set = entries_of(nodes).to_set();
    assert(entries_of(nodes)[k] == (nodes[k].id, nodes[k].ip@));
    assert forall|p: (u32, Seq<char>)| set.contains(p) && p.0 < node_id implies p.0 <= nodes[k].id by {
        let j = lemma_entry_index(nodes, p);
    }
    if exists|p: (u32, Seq<char>)| set.contains(p) && p.0 < node_id {
        let p = choose|p: (u32, Seq<char>)| set.contains(p) && p.0 < node_id;
        let j = lemma_entry_index(nodes, p);
        assert(nodes[j].id < node_id);
    } else {
        assert forall|j: int| 0 <= j < nodes.len() implies nodes[j].id >= node_id by {
            assert(set.contains(entries_of(nodes)[j]));
        }
        assert forall|p: (u32, Seq<char>)| set.contains(p) implies p.0 <= nodes[k].id by {
            let j = lemma_entry_index(nodes, p);
        }
    }
}

proof fn lemma_listing_nonempty(text: Seq<char>, n: u32, nodes: Seq<NodePrev>)
    requires
        has_node_line(text, n),
        entries_of(nodes).to_set() == listed_nodes(text, n),
    ensures
        nodes.len() > 0,
{
    let lines = text_lines(text);
    let i = choose|i: int| 0 <= i < lines.len() && i < n && ws_fields(#[trigger] lines[i]).len() == 3;
    let p = parsed_line(lines[i])->0;
    assert(listed_nodes(text, n).contains(p));
    let k = lemma_entry_index(nodes, p);
}

pub(crate) proof fn lemma_two_pow_bound(i: nat)
    requires
        i <= 18,
    ensures
        1 <= two_pow(i) <= 262144,
        two_pow(i + 1) == 2 * two_pow(i),
    decreases 18 - i,
{
    if i < 18 {
        lemma_two_pow_bound(i + 1);
    } else {
        reveal_with_fuel(two_pow, 19);
    }
}

impl Node {
    /// A node with the given id and address, an empty store and no keys.
    pub fn new(id: u32, ip: String) -> (r: Self)
        ensures
            r.id == id,
            r.ip == ip,
            r.hashmap@ == Map::<Seq<char>, String>::empty(),
            r.resp_keys@ == Seq::<u32>::empty(),
    {
        Node { id, ip, hashmap: StringHashMap::new(), resp_keys: Vec::new() }
    }

    /// Hashes the given address with SHA-1 and maps it to a node id: the first
    /// four digest bytes, big-endian, modulo `CLUSTER_SIZE`.
    pub fn hash_function(ip: String) -> (id: u32)
        ensures
            id == spec_hash(ip@),
            id < CLUSTER_SIZE,
    {
        key_of_text(ip.as_str())
    }

    /// Fills the keys of `node` between two given ids (see `filled_keys`): the keys
    /// after `previous_id` up to `current_id`, wrapping past `CLUSTER_SIZE` when the
    /// predecessor's id is not below the node's. Nothing else changes.
    pub fn fill_hashmap(node: &mut Node, previous_id: u32, current_id: u32)
        ensures
            final(node).resp_keys@ == old(node).resp_keys@ + filled_keys(previous_id, current_id),
            final(node).id == old(node).id,
            final(node).ip == old(node).ip,
            final(node).hashmap == old(node).hashmap,
    {
        let start_id = previous_id.wrapping_add(1);
        let end_id = if previous_id < current_id {
            current_id
        } else {
            CLUSTER_SIZE
        };
        let ghost base = node.resp_keys@;
        push_key_run(&mut node.resp_keys, start_id, end_id);
        if previous_id > current_id {
            push_key_run(&mut node.resp_keys, 0, current_id);
        }
        assert(node.resp_keys@ =~= base + filled_keys(previous_id, current_id));
    }

    /// Of two candidate nodes, the one that lies closer clockwise after `key_id`
    /// on the 32-bit ring (the first one on a tie). The distance is
    /// `succ.id - key_id` in wrapping arithmetic, whichever side of `node_id` the
    /// candidate lies on.
    pub fn get_best_successor(key_id: u32, node_id: u32, succ1_node: Node, succ2_node: Node) -> (r: Node)
        ensures
            r == (if ring_gap(key_id, succ1_node.id) <= ring_gap(key_id, succ2_node.id) {
                succ1_node
            } else {
                succ2_node
            }),
    {
        let dist1 = if succ1_node.id >= node_id {
            succ1_node.id.wrapping_sub(key_id)
        } else {
            (u32::MAX - key_id).wrapping_add(succ1_node.id).wrapping_add(1)
        };
        let dist2 = if succ2_node.id >= node_id {
            succ2_node.id.wrapping_sub(key_id)
        } else {
            (u32::MAX - key_id).wrapping_add(succ2_node.id).wrapping_add(1)
        };
        assert(dist1 == ring_gap(key_id, succ1_node.id));
        assert(dist2 == ring_gap(key_id, succ2_node.id));
        if dist1 <= dist2 {
            succ1_node
        } else {
            succ2_node
        }
    }
    /// Finds the node to ask about `key`, among the fingers of the node with id
    /// `current_id`, and returns its address (see `successor_address`); `None` when
    /// that address is empty.
    pub fn find_successor_key(key: u32, finger_table: &Vec<(u32, Node)>, current_id: u32) -> (r:
        Option<String>)
        requires
            finger_table@.len() > 0,
        ensures
            match r {
                Some(ip) => ip@ == successor_address(finger_table@, key, current_id) && ip@.len()
                    > 0,
                None => successor_address(finger_table@, key, current_id).len() == 0,
            },
    {
        let succ_id = finger_table[0].1.id;
        let in_arc = if succ_id < current_id {
            (current_id <= key && key <= CLUSTER_SIZE) || key <= succ_id
        } else {
            current_id <= key && key < succ_id
        };
        let mut successor = String::new();
        if in_arc {
            successor = finger_table[0].1.ip.clone();
        }
        if successor.as_str().is_empty() {
            match scan_last_at_most(finger_table, key) {
                Some(j) => {
                    successor = finger_table[j].1.ip.clone();
                },
                None => {},
            }
        }
        if successor.as_str().is_empty() {
            match scan_last_at_most(finger_table, u32::MAX) {
                Some(j) => {
                    successor = finger_table[j].1.ip.clone();
                },
                None => {},
            }
        }
        if successor.as_str().is_empty() {
            None
        } else {
            Some(successor)
        }
    }
    /// Builds the finger table of the node with id `node_id` from an address listing
    /// (`None` when the listing could not be read, which gives an empty table). Finger
    /// `i` starts at `finger_start(node_id, i)` and holds a fresh node for a listed
    /// node whose id is the ring successor of that start.
    pub fn _populate_fingertable(node_id: u32, number_of_nodes: u32, listing: Option<&str>) -> (r:
        Vec<(u32, Node)>)
        requires
            listing matches Some(text) ==> has_node_line(text@, number_of_nodes),
        ensures
            listing is None ==> r@.len() == 0,
            listing matches Some(text) ==> {
                &&& r@.len() == KEY_SIZE
                &&& forall|i: int|
                    #![trigger r@[i]]
                    0 <= i < KEY_SIZE ==> {
                        &&& r@[i].0 == finger_start(node_id, i as nat)
                        &&& listed_nodes(text@, number_of_nodes).contains(
                            (r@[i].1.id, r@[i].1.ip@),
                        )
                        &&& is_ring_successor_listed(
                            listed_nodes(text@, number_of_nodes),
                            r@[i].0,
                            r@[i].1.id,
                        )
                        &&& r@[i].1.hashmap@ == Map::<Seq<char>, String>::empty()
                        &&& r@[i].1.resp_keys@ == Seq::<u32>::empty()
                    }
            },
    {
        let mut finger_table: Vec<(u32, Node)> = Vec::new();
        match listing {
            None => finger_table,
            Some(text) => {
                let nodes = parse_listing(text, number_of_nodes);
                proof {
                    lemma_listing_nonempty(text@, number_of_nodes, nodes@);
                }
                let mut pow: u32 = 1;
                let mut i: u32 = 0;
                while i < KEY_SIZE
                    invariant
                        nodes@.len() > 0,
                        entries_of(nodes@).to_set() == listed_nodes(text@, number_of_nodes),
                        i <= KEY_SIZE,
                        i < KEY_SIZE ==> pow == two_pow(i as nat),
                        finger_table@.len() == i,
                        forall|j: int|
                            #![trigger finger_table@[j]]
                            0 <= j < i ==> {
                                &&& finger_table@[j].0 == finger_start(node_id, j as nat)
                                &&& listed_nodes(text@, number_of_nodes).contains(
                                    (finger_table@[j].1.id, finger_table@[j].1.ip@),
                                )
                                &&& is_ring_successor_listed(
                                    listed_nodes(text@, number_of_nodes),
                                    finger_table@[j].0,
                                    finger_table@[j].1.id,
                                )
                                &&& finger_table@[j].1.hashmap@ == Map::<
                                    Seq<char>,
                                    String,
                                >::empty()
                                &&& finger_table@[j].1.resp_keys@ == Seq::<u32>::empty()
                            },
                    decreases KEY_SIZE - i,
                {
                    let start = start_of_finger(node_id, pow, Ghost(i as nat));
                    let k = successor_index(&nodes, start);
                    proof {
                        lemma_successor_listed(nodes@, start, k as int);
                        assert(entries_of(nodes@)[k as int] == (nodes@[k as int].id,
                            nodes@[k as int].ip@));
                    }
                    let node = Node::new(nodes[k].id, nodes[k].ip.clone());
                    finger_table.push((start, node));
                    if i + 1 < KEY_SIZE {
                        proof {
                            lemma_two_pow_bound(i as nat);
                        }
                        pow = pow * 2;
                    }
                    i = i + 1;
                }
                finger_table
            },
        }
    }

    /// The node before `node_id` on the ring, among the nodes of an address listing:
    /// a fresh node for a listed node whose id is the ring predecessor of `node_id`.
    pub fn _get_previous_node(node_id: u32, number_of_nodes: u32, listing: Option<&str>) -> (r: Node)
        requires
            listing matches Some(text) && has_node_line(text@, number_of_nodes),
        ensures
            listing matches Some(text) && listed_nodes(text@, number_of_nodes).contains(
                (r.id, r.ip@),
            ) && is_ring_predecessor_listed(listed_nodes(text@, number_of_nodes), node_id, r.id),
            r.hashmap@ == Map::<Seq<char>, String>::empty(),
            r.resp_keys@ == Seq::<u32>::empty(),
    {
        let text = listing.unwrap();
        let nodes = parse_listing(text, number_of_nodes);
        proof {
            lemma_listing_nonempty(text@, number_of_nodes, nodes@);
        }
        let k = predecessor_index(&nodes, node_id);
        proof {
            lemma_predecessor_listed(nodes@, node_id, k as int);
            assert(entries_of(nodes@)[k as int] == (nodes@[k as int].id, nodes@[k as int].ip@));
        }
        Node::new(nodes[k].id, nodes[k].ip.clone())
    }
}

} // verus!
