use chat_spike::ring::Ring;

fn drain<const S: usize>(ring: &Ring<String, S>) -> Vec<String> {
    let mut it = ring.iter();
    let mut got: Vec<String> = Vec::new();
    while let Some(s) = it.next() {
        got.push(s.clone());
    }
    got
}

#[test]
fn ring_iter_empty() {
    let ring = Ring::<String, 3>::new();
    assert_eq!(ring.iter().next(), None);
}

#[test]
fn ring_iter_full() {
    let mut ring = Ring::<String, 3>::new();
    ring.push("1".to_string());
    ring.push("2".to_string());
    ring.push("3".to_string());
    ring.push("4".to_string());
    assert_eq!(drain(&ring), vec!["2", "3", "4"]);
}

#[test]
fn ring_iter_partial() {
    let mut ring = Ring::<String, 3>::new();
    ring.push("1".to_string());
    ring.push("2".to_string());
    assert_eq!(drain(&ring), vec!["1", "2"]);
}

#[test]
fn ring_push_reports_evicted() {
    let mut ring = Ring::<u64, 2>::new();
    assert_eq!(ring.push(10), None);
    assert_eq!(ring.push(11), None);
    assert_eq!(ring.push(12), Some(10));
    assert_eq!(ring.push(13), Some(11));
    let mut it = ring.iter();
    assert_eq!(it.next(), Some(&12));
    assert_eq!(it.next(), Some(&13));
    assert_eq!(it.next(), None);
}

#[test]
fn ring_reads_repeatable() {
    let mut ring = Ring::<String, 2>::new();
    ring.push("a".to_string());
    ring.push("b".to_string());
    ring.push("c".to_string());
    assert_eq!(ring.len(), ring.len());
    assert_eq!(drain(&ring), drain(&ring));
    assert_eq!(ring.get(0).as_str(), "b");
    assert_eq!(ring.get(0).as_str(), "b");
    assert_eq!(ring.get(1).as_str(), "c");
}
