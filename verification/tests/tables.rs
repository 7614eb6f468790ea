use traffic_monitor::aggs::IPAggs;
use traffic_monitor::correlate::CorrelationTable;
use traffic_monitor::network_utils::ipv4_to_u32;
use traffic_monitor::sync::apply_sync_cycle;
use traffic_monitor::sync::parse_blacklist;
use traffic_monitor::sync::refresh_blacklist;
use traffic_monitor::table::BoundedMap;

#[test]
fn bounded_map_get_set_delete() {
    let mut t: BoundedMap<IPAggs> = BoundedMap::new(8);
    assert_eq!(t.len(), 0);
    assert!(t.get(5).is_none());
    assert!(t.set(5, IPAggs { count: 1, usage: 10 }));
    assert_eq!(t.len(), 1);
    let g = t.get(5).unwrap();
    assert_eq!((g.count, g.usage), (1, 10));
    assert!(t.set(5, IPAggs { count: 2, usage: 20 }));
    assert_eq!(t.len(), 1);
    assert_eq!(t.get(5).unwrap().count, 2);
    t.delete(5);
    assert_eq!(t.len(), 0);
    assert!(t.get(5).is_none());
    t.delete(5);
    assert_eq!(t.len(), 0);
}

#[test]
fn bounded_map_full_insert_fails_silently() {
    let mut t: BoundedMap<u32> = BoundedMap::new(1);
    assert!(t.set(1, 1));
    assert!(!t.set(2, 2));
    assert_eq!(t.len(), 1);
    assert!(t.get(2).is_none());
    assert!(t.set(1, 9));
    assert_eq!(t.get(1), Some(9));
}

#[test]
fn bounded_map_drain_hands_out_everything_once() {
    let mut t: BoundedMap<u32> = BoundedMap::new(8);
    t.set(1, 10);
    t.set(2, 20);
    t.set(3, 30);
    let mut es = t.drain_entries();
    assert_eq!(t.len(), 0);
    es.sort();
    assert_eq!(es, vec![(1, 10), (2, 20), (3, 30)]);
    let again = t.drain_entries();
    assert!(again.is_empty());
}

#[test]
fn correlation_take_returns_handle_exactly_once() {
    let mut c = CorrelationTable::new(16);
    c.put(7, 4242);
    assert_eq!(c.take(7), Some(4242));
    assert_eq!(c.take(7), None);
}

#[test]
fn correlation_last_entry_wins() {
    let mut c = CorrelationTable::new(16);
    c.put(7, 1);
    c.put(7, 2);
    assert_eq!(c.take(7), Some(2));
    assert_eq!(c.take(7), None);
}

#[test]
fn correlation_full_table_drops_new_threads() {
    let mut c = CorrelationTable::new(1);
    c.put(1, 100);
    c.put(2, 200);
    assert_eq!(c.take(2), None);
    assert_eq!(c.take(1), Some(100));
}

#[test]
fn refresh_replaces_blacklist_contents() {
    let mut t: BoundedMap<u32> = BoundedMap::new(16);
    let a = ipv4_to_u32(vec![1, 2, 3, 4]);
    let b = ipv4_to_u32(vec![5, 6, 7, 8]);
    refresh_blacklist(&mut t, &vec![a]);
    assert_eq!(t.get(a as u64), Some(a));
    refresh_blacklist(&mut t, &vec![b]);
    assert_eq!(t.get(a as u64), None);
    assert_eq!(t.get(b as u64), Some(b));
    assert_eq!(t.len(), 1);
}

#[test]
fn failed_fetch_keeps_stale_blacklist() {
    let mut t: BoundedMap<u32> = BoundedMap::new(16);
    refresh_blacklist(&mut t, &vec![77]);
    apply_sync_cycle(&mut t, None);
    assert_eq!(t.get(77), Some(77));
    apply_sync_cycle(&mut t, Some(vec![]));
    assert_eq!(t.get(77), None);
    assert_eq!(t.len(), 0);
}

#[test]
fn parse_blacklist_accepts_all_or_nothing() {
    let good = vec!["1.2.3.4".to_string(), "10.0.0.28".to_string()];
    let parsed = parse_blacklist(&good).unwrap();
    assert_eq!(parsed, vec![ipv4_to_u32(vec![1, 2, 3, 4]), 469762058]);
    let bad = vec!["1.2.3.4".to_string(), "not-an-address".to_string()];
    assert!(parse_blacklist(&bad).is_none());
}
