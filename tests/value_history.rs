use serialplotter::value_history::ValueHistory;
use serialplotter::value_parsing::DataValue;

fn sample(name: &str, value: &str) -> DataValue {
    DataValue { name: name.to_string(), value: value.to_string() }
}

fn window(h: &ValueHistory, name: &str) -> Option<Vec<String>> {
    h.window(&name.to_string())
}

#[test]
fn drain_is_capped_and_pending_recorded() {
    let (tx, mut rx) = crossbeam::channel::bounded(100);
    for i in 0..10 {
        tx.send(sample("a", &i.to_string())).unwrap();
    }
    let mut h = ValueHistory::with_capacity(1000);
    h.update(&mut rx, 1000, 5);
    assert_eq!(window(&h, "a").unwrap(), vec!["0", "1", "2", "3", "4"]);
    assert_eq!(window(&h, "fetch_count").unwrap(), vec!["5"]);
    assert_eq!(window(&h, "pending_messages").unwrap(), vec!["5"]);
    assert_eq!(rx.len(), 5);
    h.update(&mut rx, 1000, 5);
    assert_eq!(window(&h, "a").unwrap().len(), 10);
    assert_eq!(window(&h, "fetch_count").unwrap(), vec!["5", "5"]);
    assert_eq!(window(&h, "pending_messages").unwrap(), vec!["5", "0"]);
    h.update(&mut rx, 1000, 5);
    assert_eq!(window(&h, "fetch_count").unwrap(), vec!["5", "5", "0"]);
}

#[test]
fn drain_stops_when_disconnected() {
    let (tx, mut rx) = crossbeam::channel::bounded(10);
    tx.send(sample("x", "1")).unwrap();
    drop(tx);
    let mut h = ValueHistory::with_capacity(10);
    h.update(&mut rx, 10, 100);
    assert_eq!(window(&h, "x").unwrap(), vec!["1"]);
    assert_eq!(window(&h, "fetch_count").unwrap(), vec!["1"]);
}

#[test]
fn windows_never_exceed_capacity() {
    let (tx, mut rx) = crossbeam::channel::bounded(1000);
    let mut h = ValueHistory::with_capacity(100);
    h.set_capacity(4);
    for round in 0..5 {
        for i in 0..7 {
            tx.send(sample("v", &format!("{}", round * 7 + i))).unwrap();
        }
        h.update(&mut rx, 4, 50);
        for name in h.names() {
            assert!(window(&h, &name).unwrap().len() <= 4, "{}", name);
        }
    }
}

#[test]
fn full_window_keeps_last_capacity_values() {
    let (tx, mut rx) = crossbeam::channel::bounded(1000);
    let mut h = ValueHistory::with_capacity(10);
    for i in 0..10 {
        tx.send(sample("v", &i.to_string())).unwrap();
    }
    h.update(&mut rx, 10, 100);
    h.set_capacity(3);
    assert_eq!(window(&h, "v").unwrap(), vec!["7", "8", "9"]);
    for i in 10..15 {
        tx.send(sample("v", &i.to_string())).unwrap();
    }
    h.update(&mut rx, 3, 100);
    assert_eq!(window(&h, "v").unwrap(), vec!["12", "13", "14"]);
}

#[test]
fn new_window_evicts_when_it_reaches_capacity() {
    let (tx, mut rx) = crossbeam::channel::bounded(100);
    let mut h = ValueHistory::with_capacity(3);
    for i in 0..6 {
        tx.send(sample("v", &i.to_string())).unwrap();
    }
    h.update(&mut rx, 3, 100);
    assert_eq!(window(&h, "v").unwrap(), vec!["4", "5"]);
}

#[test]
fn set_capacity_trims_oldest() {
    let (tx, mut rx) = crossbeam::channel::bounded(100);
    let mut h = ValueHistory::with_capacity(100);
    for i in 0..6 {
        tx.send(sample("v", &i.to_string())).unwrap();
    }
    assert!(h.try_receive(&mut rx));
    h.update(&mut rx, 100, 100);
    assert_eq!(window(&h, "v").unwrap().len(), 6);
    h.set_capacity(2);
    assert_eq!(h.capacity(), 2);
    assert_eq!(window(&h, "v").unwrap(), vec!["4", "5"]);
    h.set_capacity(50);
    assert_eq!(window(&h, "v").unwrap(), vec!["4", "5"]);
    h.set_capacity(0);
    assert_eq!(window(&h, "v").unwrap(), Vec::<String>::new());
}

#[test]
fn try_receive_on_empty_channel() {
    let (_tx, mut rx) = crossbeam::channel::bounded::<DataValue>(1);
    let mut h = ValueHistory::with_capacity(5);
    assert!(!h.try_receive(&mut rx));
    assert!(h.names().is_empty());
    assert_eq!(window(&h, "anything"), None);
}

#[test]
fn apply_drained_records_samples_and_counts() {
    let mut h = ValueHistory::with_capacity(10);
    h.apply_drained(10, vec![sample("a", "1"), sample("b", "2"), sample("a", "3")], 7);
    assert_eq!(window(&h, "a").unwrap(), vec!["1", "3"]);
    assert_eq!(window(&h, "b").unwrap(), vec!["2"]);
    assert_eq!(window(&h, "fetch_count").unwrap(), vec!["3"]);
    assert_eq!(window(&h, "pending_messages").unwrap(), vec!["7"]);
    assert_eq!(h.names().len(), 4);
}

#[test]
fn zero_capacity_keeps_nothing() {
    let mut h = ValueHistory::with_capacity(0);
    h.apply_drained(0, vec![sample("a", "1")], 0);
    assert_eq!(window(&h, "a").unwrap(), Vec::<String>::new());
    assert_eq!(window(&h, "fetch_count").unwrap(), Vec::<String>::new());
}
