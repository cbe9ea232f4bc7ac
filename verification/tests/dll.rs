use smarthome::dll::{Dll, ANCHOR};

fn walk(chain: &Dll<u32>) -> Vec<u32> {
    let mut seen = Vec::new();
    let mut sel = chain.next(ANCHOR);
    while sel != ANCHOR {
        seen.push(*chain.get(sel));
        sel = chain.next(sel);
    }
    seen
}

fn walk_back(chain: &Dll<u32>) -> Vec<u32> {
    let mut seen = Vec::new();
    let mut sel = chain.prev(ANCHOR);
    while sel != ANCHOR {
        seen.push(*chain.get(sel));
        sel = chain.prev(sel);
    }
    seen
}

#[test]
fn linked_list_tests() {
    /* generate nurse */
    let mut nurse: Dll<u32> = Dll::new();
    *nurse.data_mut() = 0x00;

    /* generate 4 nums */
    let mut ll_1: Dll<u32> = Dll::new();
    *ll_1.data_mut() = 0x01;
    let mut ll_2: Dll<u32> = Dll::new();
    *ll_2.data_mut() = 0x02;
    let mut ll_3: Dll<u32> = Dll::new();
    *ll_3.data_mut() = 0x03;
    let mut ll_4: Dll<u32> = Dll::new();
    *ll_4.data_mut() = 0x04;

    let _h_1 = nurse.addh(ll_1);
    let h_2 = nurse.addh(ll_2);
    let _h_3 = nurse.addh(ll_3);
    let _h_4 = nurse.addh(ll_4);

    let ll_2 = nurse.unlink(h_2);

    assert_eq!(walk(&nurse), vec![4, 3, 1]);
    assert_eq!(walk_back(&nurse), vec![1, 3, 4]);
    let ll_2 = ll_2.expect("the node was in the chain");
    assert!(ll_2.is_last());
    assert_eq!(*ll_2.data(), 0x02);
}

#[test]
fn fresh_node_is_alone() {
    let node: Dll<u32> = Dll::new();
    assert!(node.is_last());
    assert_eq!(*node.data(), 0);
    assert_eq!(node.count(), 0);
    assert_eq!(node.next(ANCHOR), ANCHOR);
    assert_eq!(node.prev(ANCHOR), ANCHOR);
    let node = Dll::from(17u32);
    assert!(node.is_last());
    assert_eq!(*node.data(), 17);
    assert_eq!(node.into_data(), 17);
    let node: Dll<u32> = Dll::default();
    assert!(node.is_last());
    assert_eq!(*node.data(), 0);
}

#[test]
fn head_insertions_are_counted() {
    let mut chain: Dll<u32> = Dll::new();
    for n in 1..=20u32 {
        chain.addh(Dll::from(n));
        assert!(!chain.is_last());
        assert_eq!(chain.count(), n as usize);
        assert_eq!(walk(&chain).len(), n as usize);
    }
}

#[test]
fn one_node_chain_is_not_empty() {
    let mut chain: Dll<u32> = Dll::new();
    let h = chain.addh(Dll::from(5));
    assert!(!chain.is_last());
    assert_eq!(chain.next(ANCHOR), h);
    assert_eq!(chain.prev(ANCHOR), h);
    assert_eq!(chain.next(h), ANCHOR);
    assert_eq!(chain.prev(h), ANCHOR);
}

#[test]
fn head_and_tail_order() {
    let mut chain: Dll<u32> = Dll::from(0);
    chain.addh(Dll::from(1));
    chain.addh(Dll::from(2));
    chain.addt(Dll::from(3));
    chain.addh(Dll::from(4));
    chain.addt(Dll::from(5));
    assert_eq!(walk(&chain), vec![4, 2, 1, 3, 5]);
    assert_eq!(walk_back(&chain), vec![5, 3, 1, 2, 4]);
    assert_eq!(*chain.data(), 0);
}

#[test]
fn insert_relative_to_a_node() {
    let mut chain: Dll<u32> = Dll::new();
    let h1 = chain.addt(Dll::from(1));
    let h2 = chain.addt(Dll::from(2));
    let h3 = chain.insert_after(h1, Dll::from(3));
    assert_eq!(walk(&chain), vec![1, 3, 2]);
    let h4 = chain.insert_before(h1, Dll::from(4));
    assert_eq!(walk(&chain), vec![4, 1, 3, 2]);
    chain.insert_after(h2, Dll::from(5));
    assert_eq!(walk(&chain), vec![4, 1, 3, 2, 5]);
    chain.insert_before(h2, Dll::from(6));
    assert_eq!(walk(&chain), vec![4, 1, 3, 6, 2, 5]);
    chain.insert_after(ANCHOR, Dll::from(7));
    chain.insert_before(ANCHOR, Dll::from(8));
    assert_eq!(walk(&chain), vec![7, 4, 1, 3, 6, 2, 5, 8]);
    assert_eq!(walk_back(&chain), vec![8, 5, 2, 6, 3, 1, 4, 7]);
    assert_eq!(chain.next(h4), h1);
    assert_eq!(chain.prev(h3), h1);
    assert_eq!(*chain.get(h3), 3);
}

#[test]
fn neighbours_mirror_each_other() {
    let mut chain: Dll<u32> = Dll::new();
    let mut handles = vec![ANCHOR];
    for n in 0..6u32 {
        handles.push(chain.addh(Dll::from(n)));
    }
    for h in handles {
        assert_eq!(chain.prev(chain.next(h)), h);
        assert_eq!(chain.next(chain.prev(h)), h);
    }
}

#[test]
fn unlink_each_position() {
    for victim in 0..4usize {
        let mut chain: Dll<u32> = Dll::new();
        let mut handles = Vec::new();
        for n in 0..4u32 {
            handles.push(chain.addt(Dll::from(n)));
        }
        let node = chain.unlink(handles[victim]).expect("the node was in the chain");
        assert!(node.is_last());
        assert_eq!(node.count(), 0);
        assert_eq!(*node.data(), victim as u32);
        let mut expected: Vec<u32> = vec![0, 1, 2, 3];
        expected.remove(victim);
        assert_eq!(walk(&chain), expected);
        expected.reverse();
        assert_eq!(walk_back(&chain), expected);
        assert_eq!(chain.count(), 3);
        assert!(!chain.contains(handles[victim]));
    }
}

#[test]
fn unlink_the_only_node() {
    let mut chain: Dll<u32> = Dll::new();
    let h = chain.addh(Dll::from(9));
    let node = chain.unlink(h).expect("the node was in the chain");
    assert_eq!(*node.data(), 9);
    assert!(node.is_last());
    assert!(chain.is_last());
    assert_eq!(chain.count(), 0);
    assert_eq!(chain.next(ANCHOR), ANCHOR);
    assert_eq!(chain.prev(ANCHOR), ANCHOR);
}

#[test]
fn unlink_twice_changes_nothing() {
    let mut chain: Dll<u32> = Dll::new();
    chain.addh(Dll::from(1));
    let h = chain.addh(Dll::from(2));
    chain.addh(Dll::from(3));
    assert!(chain.unlink(h).is_some());
    assert!(chain.unlink(h).is_none());
    assert!(chain.unlink(ANCHOR).is_none());
    assert!(chain.unlink(1000).is_none());
    assert_eq!(walk(&chain), vec![3, 1]);
}

#[test]
fn unlinked_node_can_be_linked_again() {
    let mut first: Dll<u32> = Dll::new();
    let mut second: Dll<u32> = Dll::new();
    let h = first.addh(Dll::from(1));
    first.addh(Dll::from(2));
    let node = first.unlink(h).expect("the node was in the chain");
    second.addh(Dll::from(7));
    second.addh(node);
    assert_eq!(walk(&first), vec![2]);
    assert_eq!(walk(&second), vec![1, 7]);
}

#[test]
fn delete_drops_the_node() {
    let mut chain: Dll<u32> = Dll::new();
    let h1 = chain.addh(Dll::from(1));
    let h2 = chain.addh(Dll::from(2));
    let h3 = chain.addh(Dll::from(3));
    chain.delete(h2);
    assert_eq!(walk(&chain), vec![3, 1]);
    chain.delete(h2);
    assert_eq!(walk(&chain), vec![3, 1]);
    chain.delete(h3);
    chain.delete(h1);
    assert!(chain.is_last());
    let h4 = chain.addh(Dll::from(4));
    assert_eq!(walk(&chain), vec![4]);
    assert!(chain.contains(h4));
}

#[test]
fn relink_empties_the_chain() {
    let mut chain: Dll<u32> = Dll::from(11);
    chain.addh(Dll::from(1));
    chain.addh(Dll::from(2));
    chain.relink();
    assert!(chain.is_last());
    assert_eq!(chain.count(), 0);
    assert_eq!(*chain.data(), 11);
    chain.addh(Dll::from(3));
    assert_eq!(walk(&chain), vec![3]);
}

#[test]
fn contains_tells_members() {
    let mut chain: Dll<u32> = Dll::new();
    assert!(!chain.contains(ANCHOR));
    assert!(!chain.contains(1));
    let h = chain.addh(Dll::from(1));
    assert!(chain.contains(h));
    assert!(!chain.contains(ANCHOR));
    assert!(!chain.contains(h + 1));
}

#[test]
fn get_mut_changes_one_payload() {
    let mut chain: Dll<u32> = Dll::new();
    chain.addt(Dll::from(1));
    let h = chain.addt(Dll::from(2));
    chain.addt(Dll::from(3));
    *chain.get_mut(h) = 20;
    assert_eq!(walk(&chain), vec![1, 20, 3]);
    assert_eq!(chain.count(), 3);
}

#[test]
fn clone_copies_the_node_alone() {
    let mut chain: Dll<u32> = Dll::from(42);
    chain.addh(Dll::from(1));
    chain.addh(Dll::from(2));
    chain.addh(Dll::from(3));
    let copy = chain.clone();
    assert!(copy.is_last());
    assert_eq!(copy.count(), 0);
    assert_eq!(*copy.data(), 42);
    assert_eq!(walk(&chain), vec![3, 2, 1]);
    assert_eq!(chain.count(), 3);
    assert_eq!(*chain.data(), 42);
}

#[test]
fn copy_of_a_chained_payload_is_alone() {
    let mut chain: Dll<u32> = Dll::new();
    chain.addh(Dll::from(1));
    let h = chain.addh(Dll::from(2));
    chain.addh(Dll::from(3));
    let copy = Dll::from(chain.get(h).clone());
    assert!(copy.is_last());
    assert_eq!(*copy.data(), 2);
    assert_eq!(walk(&chain), vec![3, 2, 1]);
}

#[test]
fn handles_are_not_given_out_twice() {
    let mut chain: Dll<u32> = Dll::new();
    let h1 = chain.addh(Dll::from(1));
    let h2 = chain.addh(Dll::from(2));
    assert_eq!(h1, 1);
    assert_eq!(h2, 2);
    assert!(chain.unlink(h2).is_some());
    let h3 = chain.addt(Dll::from(3));
    assert_eq!(h3, 3);
    assert!(!chain.contains(h2));
    assert!(chain.unlink(h2).is_none());
    assert_eq!(walk(&chain), vec![1, 3]);
}
