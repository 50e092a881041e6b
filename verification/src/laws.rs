//! Properties of the ring that hold across calls: who answers for a key, what a
//! read returns after a write, where lookups may lead, and what repairs keep.
use vstd::prelude::*;
use crate::keyspace::{ring_size, CLUSTER_SIZE, KEY_SIZE};
use crate::node::{
    Node, Succ_list_node, filled_keys, finger_start, key_run, last_at_most, listed_nodes, parsed_line,
    ring_gap, spec_hash, successor_address,
};
use crate::text::text_lines;
use crate::ring::{
    finger_kept, fingers_redirected, fingers_relaxed, local_read, names_address, refreshed_list, store_after_put,
};

verus! {

/// Membership in a run of keys: `k` is in `lo ..= hi` exactly when `lo <= k <= hi`.
pub proof fn law_key_run_contains(lo: int, hi: int, k: u32)
    requires
        0 <= lo,
        hi <= u32::MAX,
    ensures
        key_run(lo, hi).contains(k) <==> lo <= k <= hi,
{
    if lo <= k <= hi {
        assert(key_run(lo, hi)[k - lo] == k);
    }
}

/// Whether the node with id `current`, whose predecessor has id `previous`, answers
/// for `key`: the keys after the predecessor up to the node, around the end of the
/// ring when the predecessor's id is not below the node's.
pub open spec fn answers_for(previous: u32, current: u32, key: u32) -> bool {
    if previous < current {
        previous < key <= current
    } else if previous > current {
        (previous < key <= CLUSTER_SIZE) || key <= current
    } else {
        previous < key <= CLUSTER_SIZE
    }
}

/// The keys that `fill_hashmap` gives a node are exactly those it answers for
/// (`answers_for`): after its predecessor and up to itself, wrapping past the end
/// of the ring. (Not for a predecessor id of `u32::MAX`, where `previous + 1` wraps.)
pub proof fn law_filled_keys_are_the_arc(previous: u32, current: u32, key: u32)
    requires
        previous < u32::MAX,
    ensures
        filled_keys(previous, current).contains(key) <==> answers_for(previous, current, key),
{
    let start = previous + 1;
    law_key_run_contains(start, current as int, key);
    law_key_run_contains(start, ring_size(), key);
    law_key_run_contains(0, current as int, key);
    if previous > current {
        let a = key_run(start, ring_size());
        let b = key_run(0, current as int);
        if (a + b).contains(key) {
            let i = choose|i: int| 0 <= i < (a + b).len() && (a + b)[i] == key;
            if i < a.len() {
                assert(a[i] == key);
            } else {
                assert(b[i - a.len()] == key);
            }
        }
        if a.contains(key) {
            let i = choose|i: int| 0 <= i < a.len() && a[i] == key;
            assert((a + b)[i] == key);
        }
        if b.contains(key) {
            let i = choose|i: int| 0 <= i < b.len() && b[i] == key;
            assert((a + b)[a.len() + i] == key);
        }
    }
}

/// The index of the ring predecessor of position `i` in a ring of ids.
pub open spec fn ring_prev(n: int, i: int) -> int {
    if i == 0 {
        n - 1
    } else {
        i - 1
    }
}

/// Whether `ids` are the ids of a ring of at least two nodes, increasing, all on the ring.
pub open spec fn is_ring(ids: Seq<u32>) -> bool {
    &&& ids.len() >= 2
    &&& forall|i: int, j: int| 0 <= i < j < ids.len() ==> ids[i] < ids[j]
    &&& forall|i: int| 0 <= i < ids.len() ==> ids[i] < CLUSTER_SIZE
}

/// The first index from `from` on whose id is at least `key` (`ids.len()` when none).
pub open spec fn first_at_least(ids: Seq<u32>, key: u32, from: int) -> int
    decreases ids.len() - from,
{
    if from >= ids.len() {
        ids.len() as int
    } else if ids[from] >= key {
        from
    } else {
        first_at_least(ids, key, from + 1)
    }
}

proof fn lemma_first_at_least(ids: Seq<u32>, key: u32, from: int)
    requires
        0 <= from <= ids.len(),
    ensures
        from <= first_at_least(ids, key, from) <= ids.len(),
        first_at_least(ids, key, from) < ids.len() ==> ids[first_at_least(ids, key, from)] >= key,
        forall|j: int| from <= j < first_at_least(ids, key, from) ==> ids[j] < key,
    decreases ids.len() - from,
{
    if from < ids.len() && ids[from] < key {
        lemma_first_at_least(ids, key, from + 1);
    }
}

/// In a ring of at least two nodes, each with the keys `fill_hashmap` gives it for its
/// predecessor, every key of the ring is answered for by exactly one node.
/// (A ring of one node is left out: its keys run from after its own id to
/// `CLUSTER_SIZE` only, so the keys up to its id are answered by none.)
pub proof fn law_each_key_has_one_owner(ids: Seq<u32>, key: u32)
    requires
        is_ring(ids),
        key < CLUSTER_SIZE,
    ensures
        exists|i: int|
            0 <= i < ids.len() && filled_keys(ids[ring_prev(ids.len() as int, i)], ids[i]).contains(
                key,
            ),
        forall|i: int, j: int|
            0 <= i < ids.len() && 0 <= j < ids.len() && filled_keys(
                ids[ring_prev(ids.len() as int, i)],
                ids[i],
            ).contains(key) && filled_keys(ids[ring_prev(ids.len() as int, j)], ids[j]).contains(key)
                ==> i == j,
{
    let n = ids.len() as int;
    assert forall|i: int| 0 <= i < n implies #[trigger] filled_keys(ids[ring_prev(n, i)], ids[i]).contains(key)
        <==> answers_for(ids[ring_prev(n, i)], ids[i], key) by {
        law_filled_keys_are_the_arc(ids[ring_prev(n, i)], ids[i], key);
    }
    lemma_first_at_least(ids, key, 0);
    let f = first_at_least(ids, key, 0);
    if f == 0 || f == n {
        assert(answers_for(ids[ring_prev(n, 0)], ids[0], key));
        assert(filled_keys(ids[ring_prev(n, 0)], ids[0]).contains(key));
    } else {
        assert(answers_for(ids[ring_prev(n, f)], ids[f], key));
        assert(filled_keys(ids[ring_prev(n, f)], ids[f]).contains(key));
    }
    assert forall|i: int, j: int|
        0 <= i < n && 0 <= j < n && #[trigger] filled_keys(ids[ring_prev(n, i)], ids[i]).contains(key)
            && #[trigger] filled_keys(ids[ring_prev(n, j)], ids[j]).contains(key) implies i == j by {
        assert(answers_for(ids[ring_prev(n, i)], ids[i], key));
        assert(answers_for(ids[ring_prev(n, j)], ids[j], key));
        if i < j {
            if i > 0 {
                assert(ids[i - 1] < key <= ids[i]);
                assert(ids[i] <= ids[j - 1]);
            } else {
                assert(ids[n - 1] > ids[0]);
                if j < n - 1 {
                    assert(ids[j] < ids[n - 1]);
                }
            }
        } else if j < i {
            if j > 0 {
                assert(ids[j - 1] < key <= ids[j]);
                assert(ids[j] <= ids[i - 1]);
            } else {
                assert(ids[n - 1] > ids[0]);
                if i < n - 1 {
                    assert(ids[i] < ids[n - 1]);
                }
            }
        }
    }
}

/// The finger a lookup falls back to is the last one that a stable sort of the
/// table by node id puts among those with an id not above `bound`: its id is the
/// largest such, and no later finger with an id not above `bound` shares it. When
/// there is none, every finger's id is above `bound`.
pub proof fn law_fallback_finger_is_largest_below(ft: Seq<(u32, Node)>, bound: u32)
    ensures
        match last_at_most(ft, bound) {
            Some(j) => {
                &&& 0 <= j < ft.len()
                &&& ft[j].1.id <= bound
                &&& forall|i: int| 0 <= i < ft.len() && ft[i].1.id <= bound ==> ft[i].1.id <= ft[j].1.id
                &&& forall|i: int| j < i < ft.len() && ft[i].1.id <= bound ==> ft[i].1.id < ft[j].1.id
            },
            None => forall|i: int| 0 <= i < ft.len() ==> ft[i].1.id > bound,
        },
    decreases ft.len(),
{
    if ft.len() > 0 {
        let prefix = ft.drop_last();
        law_fallback_finger_is_largest_below(prefix, bound);
        assert forall|i: int| 0 <= i < prefix.len() implies prefix[i] == ft[i] by {}
    }
}

/// A lookup only ever names the address of one of the node's fingers (or none).
pub proof fn law_lookup_names_a_finger(ft: Seq<(u32, Node)>, key: u32, current: u32)
    requires
        ft.len() > 0,
    ensures
        successor_address(ft, key, current).len() == 0 || exists|j: int|
            0 <= j < ft.len() && successor_address(ft, key, current) == ft[j].1.ip@,
{
    law_fallback_finger_is_largest_below(ft, key);
    law_fallback_finger_is_largest_below(ft, u32::MAX);
}

/// A read that follows a write of the same key on a node that answers for the key
/// returns the written value; a write changes no answer for any other key, nor
/// any answer of a node that does not answer for the written key.
pub proof fn law_read_after_write(
    keys: Seq<u32>,
    store: Map<Seq<char>, String>,
    key_id: u32,
    key: Seq<char>,
    data: String,
    other_id: u32,
    other: Seq<char>,
)
    ensures
        keys.contains(key_id) ==> local_read(
            keys,
            store_after_put(keys, store, key_id, key, data),
            key_id,
            key,
        ) == Some(Some(data)),
        other != key ==> local_read(
            keys,
            store_after_put(keys, store, key_id, key, data),
            other_id,
            other,
        ) == local_read(keys, store, other_id, other),
        !keys.contains(key_id) ==> store_after_put(keys, store, key_id, key, data) == store,
{
}

/// After a write on a node that answers for the key, the key is held: a later write
/// of the same key reports an update, not an insertion.
pub proof fn law_written_key_is_held(
    keys: Seq<u32>,
    store: Map<Seq<char>, String>,
    key_id: u32,
    key: Seq<char>,
    data: String,
)
    ensures
        keys.contains(key_id) ==> store_after_put(keys, store, key_id, key, data).contains_key(key),
{
}

/// A second write of the same key replaces the first: the store holds the later value.
pub proof fn law_last_write_wins(
    keys: Seq<u32>,
    store: Map<Seq<char>, String>,
    key_id: u32,
    key: Seq<char>,
    first: String,
    second: String,
)
    ensures
        store_after_put(keys, store_after_put(keys, store, key_id, key, first), key_id, key, second)
            == store_after_put(keys, store, key_id, key, second),
{
    if keys.contains(key_id) {
        assert(store.insert(key, first).insert(key, second) =~= store.insert(key, second));
    }
}

/// Of two candidates, `Node::get_best_successor` keeps the one nearer clockwise after
/// the key: its distance is the smaller of the two.
pub proof fn law_best_successor_is_nearest(key: u32, a: Node, b: Node)
    ensures
        ({
            let chosen = if ring_gap(key, a.id) <= ring_gap(key, b.id) {
                a
            } else {
                b
            };
            &&& ring_gap(key, chosen.id) <= ring_gap(key, a.id)
            &&& ring_gap(key, chosen.id) <= ring_gap(key, b.id)
            &&& 0 <= ring_gap(key, chosen.id) < 0x1_0000_0000
        }),
{
}

/// Relaxing fingers with a candidate never leaves a finger (from `from` on) farther
/// after its start than the candidate, and never moves a finger farther away.
pub proof fn law_relaxed_fingers_are_no_farther(
    old_ft: Seq<(u32, Node)>,
    new_ft: Seq<(u32, Node)>,
    id: u32,
    ip: Seq<char>,
    from: int,
)
    requires
        fingers_relaxed(old_ft, new_ft, id, ip, from),
    ensures
        forall|i: int|
            #![trigger new_ft[i]]
            0 <= i && from <= i < new_ft.len() ==> ring_gap(new_ft[i].0, new_ft[i].1.id) <= ring_gap(
                new_ft[i].0,
                id,
            ),
        forall|i: int|
            #![trigger new_ft[i]]
            0 <= i < new_ft.len() ==> ring_gap(new_ft[i].0, new_ft[i].1.id) <= ring_gap(
                old_ft[i].0,
                old_ft[i].1.id,
            ),
{
}

/// After fingers are redirected away from leaving nodes to a node that is not
/// itself leaving, no finger holds a leaving address.
pub proof fn law_no_finger_holds_a_leaving_address(
    old_ft: Seq<(u32, Node)>,
    new_ft: Seq<(u32, Node)>,
    leaving: Seq<String>,
    id: u32,
    ip: Seq<char>,
)
    requires
        fingers_redirected(old_ft, new_ft, leaving, id, ip),
        !names_address(leaving, ip),
    ensures
        forall|i: int|
            #![trigger new_ft[i]]
            0 <= i < new_ft.len() ==> !names_address(leaving, new_ft[i].1.ip@),
{
}

/// A refreshed successor list starts with the new head and, when the received list
/// holds at most `KEY_SIZE` entries, holds at most `KEY_SIZE` entries itself.
pub proof fn law_successor_list_stays_bounded(received: Seq<Succ_list_node>, head: Succ_list_node)
    ensures
        refreshed_list(received, head).len() >= 1,
        refreshed_list(received, head)[0] == head,
        received.len() <= KEY_SIZE ==> refreshed_list(received, head).len() <= KEY_SIZE,
{
}

/// A node that left the ring answers for every key of the ring.
pub proof fn law_left_node_answers_every_key(key: u32)
    ensures
        key_run(0, CLUSTER_SIZE - 1).contains(key) <==> key < CLUSTER_SIZE,
{
    law_key_run_contains(0, CLUSTER_SIZE - 1, key);
}

/// Every finger starts on the ring, and the first finger starts at the key right
/// after the node.
pub proof fn law_finger_starts_on_ring(node_id: u32, i: nat)
    ensures
        finger_start(node_id, i) < CLUSTER_SIZE,
        finger_start(node_id, 0) == (node_id + 1) % ring_size(),
{
}

/// Every id a node gets is on the ring.
pub proof fn law_ids_are_on_the_ring(s: Seq<char>)
    ensures
        spec_hash(s) < CLUSTER_SIZE,
{
}

/// A node read from an address listing carries the ring id of its address.
pub proof fn law_listed_ids_are_hashes(contents: Seq<char>, n: u32, p: (u32, Seq<char>))
    requires
        listed_nodes(contents, n).contains(p),
    ensures
        p.0 == spec_hash(p.1),
        p.0 < CLUSTER_SIZE,
{
    let lines = text_lines(contents);
    let i = choose|i: int| 0 <= i < lines.len() && i < n && parsed_line(lines[i]) == Some(p);
    assert(parsed_line(lines[i]) == Some(p));
}

/// Redirecting fingers away from leaving nodes touches only the fingers that held a
/// leaving address: every other finger keeps its start and its node, and every
/// redirected finger keeps its start and now holds (`id`, `ip`).
pub proof fn law_redirect_keeps_other_fingers(
    old_ft: Seq<(u32, Node)>,
    new_ft: Seq<(u32, Node)>,
    leaving: Seq<String>,
    id: u32,
    ip: Seq<char>,
)
    requires
        fingers_redirected(old_ft, new_ft, leaving, id, ip),
    ensures
        new_ft.len() == old_ft.len(),
        forall|i: int|
            #![trigger new_ft[i]]
            0 <= i < old_ft.len() && !(exists|k: int|
                0 <= k < leaving.len() && leaving[k]@ == old_ft[i].1.ip@) ==> new_ft[i] == old_ft[i],
        forall|i: int|
            #![trigger new_ft[i]]
            0 <= i < old_ft.len() && (exists|k: int|
                0 <= k < leaving.len() && leaving[k]@ == old_ft[i].1.ip@) ==> new_ft[i].0
                == old_ft[i].0 && new_ft[i].1.id == id && new_ft[i].1.ip@ == ip,
{
    assert forall|i: int| #![trigger new_ft[i]] 0 <= i < old_ft.len() && !(exists|k: int|
        0 <= k < leaving.len() && leaving[k]@ == old_ft[i].1.ip@) implies new_ft[i] == old_ft[i] by {
        assert(finger_kept(old_ft[i], new_ft[i]));
        assert(!names_address(leaving, old_ft[i].1.ip@));
    }
}

/// A refreshed successor list is the new head followed by the received list, kept
/// whole unless it already holds `KEY_SIZE` entries, in which case only its last
/// entry is dropped.
pub proof fn law_refreshed_list_keeps_received_entries(
    received: Seq<Succ_list_node>,
    head: Succ_list_node,
)
    ensures
        refreshed_list(received, head)[0] == head,
        received.len() != KEY_SIZE ==> refreshed_list(received, head).len() == received.len() + 1,
        received.len() == KEY_SIZE ==> refreshed_list(received, head).len() == KEY_SIZE,
        forall|k: int|
            0 <= k < refreshed_list(received, head).len() - 1 ==> #[trigger] refreshed_list(
                received,
                head,
            )[k + 1] == received[k],
{
}

/// The nodes of an address listing come from its first `n` lines only: a pair is
/// listed exactly when one of those lines names it, so a node named only on a
/// later line is not listed.
pub proof fn law_listing_reads_first_lines(contents: Seq<char>, n: u32, p: (u32, Seq<char>))
    ensures
        listed_nodes(contents, n).contains(p) <==> exists|i: int|
            0 <= i < text_lines(contents).len() && i < n && parsed_line(
                #[trigger] text_lines(contents)[i],
            ) == Some(p),
{
}

/// Reading more lines of a listing never loses a node: the nodes listed for `n`
/// lines are among those listed for any `m >= n` lines.
pub proof fn law_listing_grows_with_lines(contents: Seq<char>, n: u32, m: u32, p: (u32, Seq<char>))
    requires
        n <= m,
        listed_nodes(contents, n).contains(p),
    ensures
        listed_nodes(contents, m).contains(p),
{
    let lines = text_lines(contents);
    let i = choose|i: int| 0 <= i < lines.len() && i < n && parsed_line(lines[i]) == Some(p);
    assert(0 <= i < lines.len() && i < m && parsed_line(lines[i]) == Some(p));
}

/// Relaxing fingers with a candidate leaves alone every finger before `from` and
/// every finger whose node is at least as near after its start as the candidate;
/// each other finger keeps its start and its node's store and keys, and holds the
/// candidate.
pub proof fn law_relax_keeps_nearer_fingers(
    old_ft: Seq<(u32, Node)>,
    new_ft: Seq<(u32, Node)>,
    id: u32,
    ip: Seq<char>,
    from: int,
)
    requires
        fingers_relaxed(old_ft, new_ft, id, ip, from),
    ensures
        new_ft.len() == old_ft.len(),
        forall|i: int|
            #![trigger new_ft[i]]
            0 <= i < old_ft.len() && (i < from || (old_ft[i].1.id as int - old_ft[i].0 as int)
                % 0x1_0000_0000 <= (id as int - old_ft[i].0 as int) % 0x1_0000_0000) ==> new_ft[i]
                == old_ft[i],
        forall|i: int|
            #![trigger new_ft[i]]
            0 <= i < old_ft.len() && from <= i && (old_ft[i].1.id as int - old_ft[i].0 as int)
                % 0x1_0000_0000 > (id as int - old_ft[i].0 as int) % 0x1_0000_0000 ==> {
                &&& new_ft[i].0 == old_ft[i].0
                &&& new_ft[i].1.hashmap == old_ft[i].1.hashmap
                &&& new_ft[i].1.resp_keys == old_ft[i].1.resp_keys
                &&& new_ft[i].1.id == id
                &&& new_ft[i].1.ip@ == ip
            },
{
    assert forall|i: int| #![trigger new_ft[i]] 0 <= i < old_ft.len() && (i < from || (
    old_ft[i].1.id as int - old_ft[i].0 as int) % 0x1_0000_0000 <= (id as int - old_ft[i].0 as int)
        % 0x1_0000_0000) implies new_ft[i] == old_ft[i] by {
        assert(finger_kept(old_ft[i], new_ft[i]));
    }
}

} // verus!
