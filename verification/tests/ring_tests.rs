use p2p_rust_chord::keyspace::{CLUSTER_SIZE, KEY_SIZE};
use p2p_rust_chord::node::{Node, NodePrev, Succ_list_node};
use p2p_rust_chord::ring::{
    all_keys, forwarded_get_result, initial_finger_table, neighbors, node_info,
    pick_predecessor_address, relax_fingers_from, replace_leaving_fingers, update_successor_list,
    ItemLookup, PutOutcome, Route,
};

fn table(entries: &[(u32, u32, &str)]) -> Vec<(u32, Node)> {
    entries.iter().map(|(s, id, ip)| (*s, Node::new(*id, ip.to_string()))).collect()
}

fn ids_ips(ft: &Vec<(u32, Node)>) -> Vec<(u32, u32, String)> {
    ft.iter().map(|(s, n)| (*s, n.id, n.ip.clone())).collect()
}

fn succ(id: u32, ip: &str) -> Succ_list_node {
    Succ_list_node::new(id, ip.to_string())
}

fn list_ids(l: &Vec<Succ_list_node>) -> Vec<u32> {
    l.iter().map(|s| s.id).collect()
}

#[test]
fn all_keys_covers_the_ring() {
    let keys = all_keys();
    assert_eq!(keys.len(), CLUSTER_SIZE as usize);
    assert_eq!(keys[0], 0);
    assert_eq!(keys[12345], 12345);
    assert_eq!(keys[keys.len() - 1], CLUSTER_SIZE - 1);
}

#[test]
fn initial_table_points_at_self() {
    let ft = initial_finger_table(CLUSTER_SIZE - 1, &"me:1".to_string());
    assert_eq!(ft.len(), KEY_SIZE as usize);
    assert_eq!(ft[0].0, 0);
    assert_eq!(ft[1].0, 1);
    assert_eq!(ft[19].0, (CLUSTER_SIZE - 1 + (1 << 19)) % CLUSTER_SIZE);
    for (_, n) in ft.iter() {
        assert_eq!((n.id, n.ip.as_str()), (CLUSTER_SIZE - 1, "me:1"));
    }
    let ft = initial_finger_table(u32::MAX, &"x".to_string());
    assert_eq!(ft[0].0, 0);
    assert_eq!(ft[3].0, 7);
}

#[test]
fn neighbors_and_info() {
    let ft = table(&[(1, 10, "s:1"), (2, 20, "t:2")]);
    let prev = NodePrev::new(3, "p:0".to_string());
    let n = neighbors(&prev, &ft);
    assert_eq!((n.prev.as_str(), n.next.as_str()), ("p:0", "s:1"));
    let me = Node::new(5, "me".to_string());
    let info = node_info(&me, &ft);
    assert_eq!(info.node_hash, 5);
    assert_eq!(info.successor, "s:1");
    assert_eq!(info.others, vec!["s:1".to_string(), "t:2".to_string()]);
    let empty: Vec<(u32, Node)> = Vec::new();
    let info = node_info(&me, &empty);
    assert_eq!(info.successor, "");
    assert!(info.others.is_empty());
}

#[test]
fn forwarded_get_interprets_missing() {
    assert_eq!(forwarded_get_result("Key not found".to_string()), None);
    assert_eq!(forwarded_get_result("value".to_string()), Some("value".to_string()));
    assert_eq!(forwarded_get_result("Key not found!".to_string()), Some("Key not found!".to_string()));
}

#[test]
fn predecessor_address_from_neighbors() {
    assert_eq!(pick_predecessor_address(&vec!["a".to_string(), "b".to_string()]), "a");
    assert_eq!(pick_predecessor_address(&vec!["".to_string(), "b".to_string()]), "b");
    assert_eq!(pick_predecessor_address(&vec!["a".to_string()]), "a");
}

#[test]
fn successor_list_refresh() {
    let mut list = vec![succ(1, "old")];
    update_successor_list(&mut list, vec![succ(2, "b"), succ(3, "c")], succ(9, "h"));
    assert_eq!(list_ids(&list), vec![9, 2, 3]);
    let full: Vec<Succ_list_node> = (0..KEY_SIZE).map(|i| succ(100 + i, "x")).collect();
    update_successor_list(&mut list, full, succ(7, "h"));
    assert_eq!(list.len(), KEY_SIZE as usize);
    assert_eq!(list[0].id, 7);
    assert_eq!(list[1].id, 100);
    assert_eq!(list[KEY_SIZE as usize - 1].id, 100 + KEY_SIZE - 2);
    update_successor_list(&mut list, Vec::new(), succ(8, "h"));
    assert_eq!(list_ids(&list), vec![8]);
}

#[test]
fn leaving_fingers_are_replaced() {
    let mut ft = table(&[(1, 10, "a"), (2, 20, "b"), (3, 10, "a"), (4, 30, "c")]);
    replace_leaving_fingers(&mut ft, &vec!["a".to_string(), "zz".to_string()], 77, &"n".to_string());
    assert_eq!(
        ids_ips(&ft),
        vec![
            (1, 77, "n".to_string()),
            (2, 20, "b".to_string()),
            (3, 77, "n".to_string()),
            (4, 30, "c".to_string())
        ]
    );
}

#[test]
fn relaxing_takes_nearer_candidate() {
    let mut ft = table(&[(10, 100, "far"), (10, 15, "near"), (90, 100, "x")]);
    relax_fingers_from(&mut ft, 5, 50, &"cand".to_string(), 0);
    assert_eq!(
        ids_ips(&ft),
        vec![
            (10, 50, "cand".to_string()),
            (10, 15, "near".to_string()),
            (90, 100, "x".to_string())
        ]
    );
    let mut ft = table(&[(10, 100, "far"), (10, 100, "far")]);
    relax_fingers_from(&mut ft, 5, 50, &"cand".to_string(), 1);
    assert_eq!(ft[0].1.ip, "far");
    assert_eq!(ft[1].1.ip, "cand");
}

#[test]
fn route_local_or_forward() {
    let mut me = Node::new(100, "me".to_string());
    Node::fill_hashmap(&mut me, 50, 100);
    let ft = table(&[(101, 200, "s"), (102, 300, "t")]);
    assert!(matches!(me.route_key(&ft, 75), Route::Local));
    match me.route_key(&ft, 150) {
        Route::Forward(ip) => assert_eq!(ip, "s"),
        _ => panic!("expected forward"),
    }
    match me.route_key(&ft, 250) {
        Route::Forward(ip) => assert_eq!(ip, "s"),
        _ => panic!("expected forward"),
    }
    let ft_empty_ip = table(&[(101, 200, "")]);
    assert!(matches!(me.route_key(&ft_empty_ip, 150), Route::NoSuccessor));
}

#[test]
fn read_after_write_on_owner() {
    let mut me = Node::new(100, "me".to_string());
    Node::fill_hashmap(&mut me, 50, 100);
    let ft = table(&[(101, 200, "s")]);
    assert!(matches!(me.get_item(&ft, 60, "k"), ItemLookup::Missing));
    assert!(matches!(me.put_item(&ft, 60, "k".to_string(), "v1".to_string()), PutOutcome::Inserted));
    match me.get_item(&ft, 60, "k") {
        ItemLookup::Found(v) => assert_eq!(v, "v1"),
        _ => panic!("expected value"),
    }
    assert!(matches!(me.put_item(&ft, 60, "k".to_string(), "v2".to_string()), PutOutcome::Updated));
    match me.get_item(&ft, 60, "k") {
        ItemLookup::Found(v) => assert_eq!(v, "v2"),
        _ => panic!("expected value"),
    }
    assert!(matches!(me.get_item(&ft, 60, "other"), ItemLookup::Missing));
}

#[test]
fn write_elsewhere_is_forwarded() {
    let mut me = Node::new(100, "me".to_string());
    Node::fill_hashmap(&mut me, 50, 100);
    let ft = table(&[(101, 200, "s")]);
    match me.put_item(&ft, 150, "k".to_string(), "v".to_string()) {
        PutOutcome::Forward(ip) => assert_eq!(ip, "s"),
        _ => panic!("expected forward"),
    }
    assert!(me.hashmap.is_empty());
    match me.get_item(&ft, 150, "k") {
        ItemLookup::Forward(ip) => assert_eq!(ip, "s"),
        _ => panic!("expected forward"),
    }
}

#[test]
fn adopting_a_predecessor_recomputes_keys() {
    let mut me = Node::new(256081, "c1-1:61021".to_string());
    me.resp_keys.push(1);
    let mut prev = NodePrev::new(0, String::new());
    Node::adopt_predecessor(&mut me, &mut prev, "c2-3:61021".to_string());
    assert_eq!(prev, NodePrev::new(179540, "c2-3:61021".to_string()));
    assert_eq!(me.resp_keys.len(), (256081 - 179540) as usize);
    assert_eq!(me.resp_keys[0], 179541);
    assert_eq!(*me.resp_keys.last().unwrap(), 256081);
}

#[test]
fn joining_updates_fingers() {
    // joining node 98267 (c3-5) learns successor c2-3 (179540)
    let mut ft = initial_finger_table(98267, &"c3-5:61021".to_string());
    Node::join_update_fingers(&mut ft, 98267, &"c2-3:61021".to_string());
    assert_eq!((ft[0].1.id, ft[0].1.ip.as_str()), (179540, "c2-3:61021"));
    for i in 1..KEY_SIZE as usize {
        let start = ft[i].0;
        let to_self = 98267u32.wrapping_sub(start);
        let to_succ = 179540u32.wrapping_sub(start);
        let expected = if to_self <= to_succ { 98267 } else { 179540 };
        assert_eq!(ft[i].1.id, expected, "finger {}", i);
    }
}

#[test]
fn leaving_resets_state() {
    let mut me = Node::new(5, "me".to_string());
    Node::fill_hashmap(&mut me, 1, 5);
    let mut ft = table(&[(6, 10, "a"), (7, 20, "b")]);
    let mut prev = NodePrev::new(1, "p".to_string());
    Node::leave_ring(&mut me, &mut ft, &mut prev);
    assert_eq!(me.resp_keys.len(), CLUSTER_SIZE as usize);
    assert_eq!(ids_ips(&ft), vec![(6, 5, "me".to_string()), (7, 5, "me".to_string())]);
    assert_eq!(prev, NodePrev::new(0, String::new()));
}

#[test]
fn predecessor_leave_notice() {
    let mut ft = table(&[(1, 10, "gone"), (2, 20, "b")]);
    let mut list = vec![succ(10, "gone")];
    let forward = Node::handle_predecessor_leave(
        5,
        &mut ft,
        &mut list,
        "c2-3:61021".to_string(),
        &vec!["gone".to_string()],
        vec![succ(20, "b")],
    );
    assert!(forward);
    assert_eq!((ft[0].1.id, ft[0].1.ip.as_str()), (179540, "c2-3:61021"));
    assert_eq!(ft[1].1.ip, "b");
    assert_eq!(list_ids(&list), vec![179540, 20]);
    let mut ft = table(&[(1, 10, "gone")]);
    let mut list = Vec::new();
    let forward = Node::handle_predecessor_leave(
        179540,
        &mut ft,
        &mut list,
        "c2-3:61021".to_string(),
        &vec!["gone".to_string()],
        Vec::new(),
    );
    assert!(!forward);
}

#[test]
fn successor_notice() {
    // node 100 with fingers on itself hears of c3-5 (98267)
    let mut ft = table(&[(101, 100, "me"), (102, 100, "me")]);
    let mut list = Vec::new();
    let forward = Node::handle_successor_notice(
        100,
        7,
        &mut ft,
        &mut list,
        "c3-5:61021".to_string(),
        vec![succ(1, "x")],
    );
    assert!(forward);
    assert_eq!(ft[0].1.id, 98267);
    assert_eq!(list_ids(&list), vec![98267, 1]);
    let mut ft = table(&[(101, 100, "me")]);
    let forward = Node::handle_successor_notice(
        100,
        98267,
        &mut ft,
        &mut list,
        "c3-5:61021".to_string(),
        Vec::new(),
    );
    assert!(!forward);
}

#[test]
fn repair_after_failure_points_at_alive() {
    let mut ft = table(&[(1, 10, "dead"), (2, 20, "dead2"), (3, 30, "c")]);
    let mut list = vec![succ(10, "dead"), succ(20, "dead2"), succ(30, "c")];
    Node::repair_after_failure(
        &mut ft,
        &mut list,
        &vec!["dead".to_string(), "dead2".to_string()],
        30,
        "c".to_string(),
        vec![succ(40, "d")],
    );
    assert_eq!(ids_ips(&ft), vec![
        (1, 30, "c".to_string()),
        (2, 30, "c".to_string()),
        (3, 30, "c".to_string())
    ]);
    assert_eq!(list_ids(&list), vec![30, 40]);
}

#[test]
fn read_without_successor() {
    let me = Node::new(100, "me".to_string());
    let ft = table(&[(101, 200, "")]);
    assert!(matches!(me.get_item(&ft, 150, "k"), ItemLookup::NoSuccessor));
}

#[test]
fn each_key_has_one_owner_on_a_small_ring() {
    let ids = [10u32, 20, 30];
    let mut owners = Vec::new();
    for (i, id) in ids.iter().enumerate() {
        let prev = ids[(i + ids.len() - 1) % ids.len()];
        let mut n = Node::new(*id, format!("n{}", id));
        Node::fill_hashmap(&mut n, prev, *id);
        owners.push(n);
    }
    for key in [0u32, 5, 10, 11, 20, 25, 30, 31, CLUSTER_SIZE - 1] {
        let holders: Vec<u32> =
            owners.iter().filter(|n| n.resp_keys.contains(&key)).map(|n| n.id).collect();
        assert_eq!(holders.len(), 1, "key {}", key);
    }
    assert!(owners[2].resp_keys.contains(&25));
    assert!(owners[0].resp_keys.contains(&35));
    assert!(owners[0].resp_keys.contains(&5));
}

#[test]
fn successor_query_for_own_address_is_local() {
    // predecessor id equal to the node's own: the node does not hold its own id
    let mut me = Node::new(256081, "c1-1:61021".to_string());
    Node::fill_hashmap(&mut me, 256081, 256081);
    assert!(!me.resp_keys.contains(&256081));
    let ft = table(&[(256082, 256081, "c1-1:61021")]);
    assert!(matches!(me.route_address(&ft, "c1-1:61021".to_string()), Route::Local));
    // another address whose id (179540) the node does not hold is forwarded
    match me.route_address(&ft, "c2-3:61021".to_string()) {
        Route::Forward(ip) => assert_eq!(ip, "c1-1:61021"),
        _ => panic!("expected forward"),
    }
    // an address whose id the node holds is local
    let mut owner = Node::new(200000, "o".to_string());
    Node::fill_hashmap(&mut owner, 100000, 200000);
    assert!(matches!(owner.route_address(&ft, "c2-3:61021".to_string()), Route::Local));
}

#[test]
fn write_without_successor() {
    let mut me = Node::new(100, "me".to_string());
    let ft = table(&[(101, 200, "")]);
    assert!(matches!(me.put_item(&ft, 150, "k".to_string(), "v".to_string()), PutOutcome::NoSuccessor));
    assert!(me.hashmap.is_empty());
}
