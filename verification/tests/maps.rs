use dnd_spreadsheet::maps::bimap::BiMap;
use dnd_spreadsheet::maps::fastqueue::FastQueue;
use dnd_spreadsheet::maps::pairmap::PairMap;
use dnd_spreadsheet::reactive::sheet::CellId;

fn id(name: &str) -> CellId {
    CellId(name.to_string())
}

#[test]
fn the_queue_holds_no_item_twice() {
    let mut queue: FastQueue<u64> = FastQueue::new();
    assert!(queue.is_empty());
    queue.push(1);
    queue.push(2);
    queue.push(1);
    queue.push(3);
    assert!(queue.contains(&2));
    assert_eq!(queue.pop(), Some(1));
    queue.push(1);
    queue.push(2);
    assert_eq!(queue.pop(), Some(2));
    assert_eq!(queue.pop(), Some(3));
    assert_eq!(queue.pop(), Some(1));
    assert_eq!(queue.pop(), None);
    assert!(queue.is_empty());
}

#[test]
fn the_queue_tells_cells_apart_by_name() {
    let mut queue: FastQueue<CellId> = FastQueue::new();
    queue.push(id("A"));
    queue.push(id("a"));
    queue.push(id("A"));
    assert_eq!(queue.pop().map(|c| c.0), Some("A".to_string()));
    assert_eq!(queue.pop().map(|c| c.0), Some("a".to_string()));
    assert!(queue.pop().is_none());
}

#[test]
fn the_relation_reads_both_ways() {
    let mut relation: PairMap<u32, u64> = PairMap::new();
    relation.insert(1, 10);
    relation.insert(1, 20);
    relation.insert(2, 10);
    relation.insert(1, 10);
    assert!(relation.contains(&1, &20));
    assert!(!relation.contains(&2, &20));
    assert_eq!(relation.get_with_left(&1), vec![&10, &20]);
    assert_eq!(relation.get_with_left(&3), Vec::<&u64>::new());
    assert_eq!(relation.get_with_right(&10), vec![&1, &2]);
    relation.delete_with_right(&10);
    assert_eq!(relation.get_with_left(&1), vec![&20]);
    assert_eq!(relation.get_with_right(&10), Vec::<&u32>::new());
    relation.insert(2, 20);
    relation.insert(2, 30);
    relation.delete_with_left(&2);
    assert_eq!(relation.get_with_right(&20), vec![&1]);
    assert_eq!(relation.get_with_right(&30), Vec::<&u32>::new());
}

#[test]
fn the_two_way_map_keeps_the_latest_binding() {
    let mut map: BiMap<u8, u16> = BiMap::new();
    assert_eq!(map.get_with_left(&1), None);
    map.insert(1, 100);
    map.insert(2, 200);
    assert_eq!(map.get_with_left(&1), Some(&100));
    assert_eq!(map.get_with_right(&200), Some(&2));
    map.insert(1, 200);
    assert_eq!(map.get_with_left(&1), Some(&200));
    assert_eq!(map.get_with_right(&200), Some(&1));
    assert_eq!(map.get_with_right(&100), Some(&1));
    assert_eq!(map.get_with_left(&2), Some(&200));
    assert_eq!(map.get_with_right(&300), None);
}
