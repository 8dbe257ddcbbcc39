use task_group::intrusive::{List, Node};

fn payloads(list: &List<i32>) -> Vec<i32> {
    let mut out = Vec::new();
    let mut node = list.peek_front();
    while let Some(inner) = node {
        out.push(inner.data);
        node = inner.next(list);
    }
    out
}

#[test]
fn push_iterate() {
    let mut list = List::new();
    list.push_front(Node::new(6i32));
    list.push_front(Node::new(12i32));
    list.push_front(Node::new(18i32));

    let node_a_ref = list.peek_front().unwrap();
    assert_eq!(18, node_a_ref.data);
    assert_eq!(12, node_a_ref.next(&list).unwrap().data);
    assert_eq!(6, node_a_ref.next(&list).unwrap().next(&list).unwrap().data);
    assert!(node_a_ref
        .next(&list)
        .unwrap()
        .next(&list)
        .unwrap()
        .next(&list)
        .is_none());
}

#[test]
fn remove() {
    let mut list = List::new();
    {
        let node_a = list.push_front(Node::new(6i32));
        let node_b = list.push_front(Node::new(12i32));
        let node_c = list.push_front(Node::new(18i32));

        Node::remove(node_b, &mut list);
        Node::remove(node_a, &mut list);
        Node::remove(node_c, &mut list);
    }

    assert!(list.peek_front().is_none());
}

#[test]
fn new_list_is_empty() {
    let list: List<i32> = List::new();
    assert!(list.peek_front().is_none());
    assert_eq!(list.len(), 0);
    assert!(!list.is_linked(0));
}

#[test]
fn new_node_is_unlinked() {
    let node = Node::new(41i32);
    assert!(!node.is_init());
    assert_eq!(node.data, 41);
    assert_eq!(*node.data(), 41);
}

#[test]
fn pushed_node_is_linked() {
    let mut list = List::new();
    let h = list.push_front(Node::new(7i32));
    assert!(list.is_linked(h));
    assert!(list.get(h).is_init());
    assert_eq!(list.get(h).data, 7);
    assert_eq!(list.len(), 1);
    assert!(list.peek_front().unwrap().next(&list).is_none());
}

#[test]
fn remove_front_keeps_the_rest_in_order() {
    let mut list = List::new();
    let _a = list.push_front(Node::new(1i32));
    let _b = list.push_front(Node::new(2i32));
    let c = list.push_front(Node::new(3i32));
    Node::remove(c, &mut list);
    assert_eq!(payloads(&list), vec![2, 1]);
    assert_eq!(list.len(), 2);
    assert!(!list.is_linked(c));
}

#[test]
fn remove_middle_keeps_the_rest_in_order() {
    let mut list = List::new();
    let a = list.push_front(Node::new(1i32));
    let b = list.push_front(Node::new(2i32));
    let c = list.push_front(Node::new(3i32));
    Node::remove(b, &mut list);
    assert_eq!(payloads(&list), vec![3, 1]);
    assert!(list.is_linked(a));
    assert!(!list.is_linked(b));
    assert!(list.is_linked(c));
}

#[test]
fn remove_back_keeps_the_rest_in_order() {
    let mut list = List::new();
    let a = list.push_front(Node::new(1i32));
    let _b = list.push_front(Node::new(2i32));
    let _c = list.push_front(Node::new(3i32));
    Node::remove(a, &mut list);
    assert_eq!(payloads(&list), vec![3, 2]);
    let d = list.push_front(Node::new(4i32));
    assert_eq!(payloads(&list), vec![4, 3, 2]);
    Node::remove(d, &mut list);
    assert_eq!(payloads(&list), vec![3, 2]);
}

#[test]
fn freed_slot_is_reused_without_disturbing_others() {
    let mut list = List::new();
    let a = list.push_front(Node::new(10i32));
    let b = list.push_front(Node::new(20i32));
    Node::remove(a, &mut list);
    let c = list.push_front(Node::new(30i32));
    assert_ne!(c, b);
    assert_eq!(payloads(&list), vec![30, 20]);
    assert!(list.is_linked(b));
    assert!(list.is_linked(c));
    assert_eq!(list.len(), 2);
    Node::remove(b, &mut list);
    Node::remove(c, &mut list);
    assert!(list.peek_front().is_none());
    assert_eq!(list.len(), 0);
}

#[test]
fn set_data_replaces_one_payload() {
    let mut list = List::new();
    let a = list.push_front(Node::new(1i32));
    let b = list.push_front(Node::new(2i32));
    let c = list.push_front(Node::new(3i32));
    list.set_data(b, 22);
    assert_eq!(payloads(&list), vec![3, 22, 1]);
    list.set_data(c, 33);
    list.set_data(a, 11);
    assert_eq!(payloads(&list), vec![33, 22, 11]);
    assert_eq!(list.len(), 3);
}

#[test]
fn many_pushes_and_removes() {
    let mut list = List::new();
    let mut handles = Vec::new();
    for i in 0..50i32 {
        handles.push(list.push_front(Node::new(i)));
    }
    for (i, h) in handles.iter().enumerate() {
        if i % 2 == 0 {
            Node::remove(*h, &mut list);
        }
    }
    let expected: Vec<i32> = (0..50).rev().filter(|i| i % 2 == 1).collect();
    assert_eq!(payloads(&list), expected);
    assert_eq!(list.len(), 25);
}
