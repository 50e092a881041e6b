use p2p_rust_chord::keyspace::{CLUSTER_SIZE, KEY_SIZE};
use p2p_rust_chord::node::{Node, NodePrev, Succ_list_node, _parse_line, parse_listing};

const LISTING: &str = "1 alpha c1-1:61021\n2 beta c2-3:61021\r\n3 gamma c3-5:61021\n";

fn finger(id: u32, ip: &str) -> (u32, Node) {
    (0, Node::new(id, ip.to_string()))
}

#[test]
fn hash_function_known_addresses() {
    assert_eq!(Node::hash_function("127.0.0.1:8080".to_string()), 338516);
    assert_eq!(Node::hash_function("c1-1:61021".to_string()), 256081);
    assert_eq!(Node::hash_function("mykey".to_string()), 836100);
    assert_eq!(Node::hash_function(String::new()), 631790);
}

#[test]
fn hash_function_stays_on_ring() {
    for s in ["a", "b", "10.0.0.1:5000", "hello", "c3-5:61021"] {
        assert!(Node::hash_function(s.to_string()) < CLUSTER_SIZE);
    }
}

#[test]
fn new_nodes_are_empty() {
    let n = Node::new(7, "x:1".to_string());
    assert_eq!(n.id, 7);
    assert_eq!(n.ip, "x:1");
    assert!(n.hashmap.is_empty());
    assert!(n.resp_keys.is_empty());
    let p = NodePrev::new(3, "y:2".to_string());
    assert_eq!(p, NodePrev { id: 3, ip: "y:2".to_string() });
    let s = Succ_list_node::new(4, "z:3".to_string());
    assert_eq!((s.id, s.ip.as_str()), (4, "z:3"));
}

#[test]
fn parse_line_takes_third_field() {
    assert_eq!(_parse_line("1 node c1-1:61021"), Some((256081, "c1-1:61021")));
    assert_eq!(_parse_line("  x\t y   127.0.0.1:8080  "), Some((338516, "127.0.0.1:8080")));
    assert_eq!(_parse_line("a\u{3000}b\u{2003}mykey"), Some((836100, "mykey")));
}

#[test]
fn parse_line_rejects_other_shapes() {
    assert_eq!(_parse_line(""), None);
    assert_eq!(_parse_line("a b"), None);
    assert_eq!(_parse_line("a b c d"), None);
    assert_eq!(_parse_line("   "), None);
}

#[test]
fn parse_listing_dedups_and_limits() {
    let text = "1 a c1-1:61021\n2 b c1-1:61021\nbad line\n3 c c2-3:61021\r\n4 d c3-5:61021";
    let nodes = parse_listing(text, 10);
    let got: Vec<(u32, String)> = nodes.iter().map(|n| (n.id, n.ip.clone())).collect();
    assert_eq!(
        got,
        vec![
            (256081, "c1-1:61021".to_string()),
            (179540, "c2-3:61021".to_string()),
            (98267, "c3-5:61021".to_string())
        ]
    );
    let first_two = parse_listing(text, 2);
    assert_eq!(first_two.len(), 1);
    assert!(parse_listing("", 5).is_empty());
    assert!(parse_listing(text, 0).is_empty());
}

#[test]
fn populate_fingertable_from_listing() {
    let node_id = 179540u32;
    let ft = Node::_populate_fingertable(node_id, 3, Some(LISTING));
    assert_eq!(ft.len(), KEY_SIZE as usize);
    for (i, (start, n)) in ft.iter().enumerate() {
        let expected_start = (node_id + (1u32 << i)) % CLUSTER_SIZE;
        assert_eq!(*start, expected_start);
        let (id, ip) = if expected_start <= 98267 {
            (98267, "c3-5:61021")
        } else if expected_start <= 179540 {
            (179540, "c2-3:61021")
        } else if expected_start <= 256081 {
            (256081, "c1-1:61021")
        } else {
            (98267, "c3-5:61021")
        };
        assert_eq!((n.id, n.ip.as_str()), (id, ip), "finger {}", i);
        assert!(n.hashmap.is_empty());
        assert!(n.resp_keys.is_empty());
    }
    assert_eq!(ft[0].1.id, 256081);
    assert_eq!(ft[19].1.id, 98267);
}

#[test]
fn populate_fingertable_without_listing() {
    assert!(Node::_populate_fingertable(5, 3, None).is_empty());
}

#[test]
fn previous_node_from_listing() {
    let p = Node::_get_previous_node(179540, 3, Some(LISTING));
    assert_eq!((p.id, p.ip.as_str()), (98267, "c3-5:61021"));
    let p = Node::_get_previous_node(300000, 3, Some(LISTING));
    assert_eq!((p.id, p.ip.as_str()), (256081, "c1-1:61021"));
    // nothing below: the node with the greatest id
    let p = Node::_get_previous_node(98267, 3, Some(LISTING));
    assert_eq!((p.id, p.ip.as_str()), (256081, "c1-1:61021"));
    let p = Node::_get_previous_node(5, 1, Some(LISTING));
    assert_eq!((p.id, p.ip.as_str()), (256081, "c1-1:61021"));
}

#[test]
fn fill_hashmap_plain_arc() {
    let mut n = Node::new(10, "a".to_string());
    n.resp_keys.push(99);
    Node::fill_hashmap(&mut n, 5, 10);
    assert_eq!(n.resp_keys, vec![99, 6, 7, 8, 9, 10]);
}

#[test]
fn fill_hashmap_wrapping_arc() {
    let mut n = Node::new(2, "a".to_string());
    Node::fill_hashmap(&mut n, CLUSTER_SIZE - 3, 2);
    assert_eq!(n.resp_keys, vec![CLUSTER_SIZE - 2, CLUSTER_SIZE - 1, CLUSTER_SIZE, 0, 1, 2]);
}

#[test]
fn fill_hashmap_equal_ids() {
    let mut n = Node::new(CLUSTER_SIZE - 2, "a".to_string());
    Node::fill_hashmap(&mut n, CLUSTER_SIZE - 2, CLUSTER_SIZE - 2);
    assert_eq!(n.resp_keys, vec![CLUSTER_SIZE - 1, CLUSTER_SIZE]);
}

#[test]
fn fill_hashmap_predecessor_past_ring() {
    let mut n = Node::new(1, "a".to_string());
    Node::fill_hashmap(&mut n, CLUSTER_SIZE + 5, 1);
    assert_eq!(n.resp_keys, vec![0, 1]);
}

#[test]
fn best_successor_prefers_nearer_clockwise() {
    let a = Node::new(100, "a".to_string());
    let b = Node::new(200, "b".to_string());
    assert_eq!(Node::get_best_successor(50, 10, a, b).ip, "a");
    let a = Node::new(100, "a".to_string());
    let b = Node::new(200, "b".to_string());
    // key 150: a lies almost a full turn away
    assert_eq!(Node::get_best_successor(150, 10, a, b).ip, "b");
    // a tie keeps the first
    let a = Node::new(100, "a".to_string());
    let b = Node::new(100, "b".to_string());
    assert_eq!(Node::get_best_successor(90, 500, a, b).ip, "a");
    // a candidate below the node id: distance taken around the ring
    let a = Node::new(5, "a".to_string());
    let b = Node::new(300, "b".to_string());
    assert_eq!(Node::get_best_successor(250, 100, a, b).ip, "b");
    let a = Node::new(5, "a".to_string());
    let b = Node::new(300, "b".to_string());
    assert_eq!(Node::get_best_successor(400, 100, a, b).ip, "a");
}

#[test]
fn find_successor_first_finger_arc() {
    let ft = vec![finger(50, "s"), finger(80, "t"), finger(20, "u")];
    assert_eq!(Node::find_successor_key(30, &ft, 10), Some("s".to_string()));
    assert_eq!(Node::find_successor_key(10, &ft, 10), Some("s".to_string()));
    // 50 is not on the arc [10, 50): fallback to the largest id not above it
    assert_eq!(Node::find_successor_key(50, &ft, 10), Some("s".to_string()));
    assert_eq!(Node::find_successor_key(90, &ft, 10), Some("t".to_string()));
    // nothing at or below the key: the finger with the largest id
    assert_eq!(Node::find_successor_key(5, &ft, 10), Some("t".to_string()));
}

#[test]
fn find_successor_wrapping_arc() {
    let ft = vec![finger(5, "s"), finger(700, "t")];
    assert_eq!(Node::find_successor_key(900, &ft, 800), Some("s".to_string()));
    assert_eq!(Node::find_successor_key(3, &ft, 800), Some("s".to_string()));
    assert_eq!(Node::find_successor_key(CLUSTER_SIZE, &ft, 800), Some("s".to_string()));
    assert_eq!(Node::find_successor_key(750, &ft, 800), Some("t".to_string()));
}

#[test]
fn find_successor_ties_take_later_finger() {
    let ft = vec![finger(50, "s"), finger(30, "t"), finger(30, "u"), finger(10, "v")];
    assert_eq!(Node::find_successor_key(40, &ft, 45), Some("u".to_string()));
}

#[test]
fn find_successor_empty_addresses() {
    let ft = vec![finger(50, ""), finger(30, "t")];
    assert_eq!(Node::find_successor_key(35, &ft, 10), Some("t".to_string()));
    assert_eq!(Node::find_successor_key(20, &ft, 10), None);
    let ft = vec![finger(50, "")];
    assert_eq!(Node::find_successor_key(20, &ft, 10), None);
}
