use chat_spike::dict::vacuum_due;
use chat_spike::spike::{argmax_latest, step_phase, ChatWindow, Phase, Transition};

#[test]
fn first_surprising_event_begins_spike() {
    // with a start threshold any positive surprise clears, the very first
    // step out of Idle opens a spike and the phase reads InSpike
    let (phase, transition) = step_phase(Phase::Idle, true, false);
    assert_eq!(phase, Phase::InSpike);
    assert_eq!(transition, Transition::Begin);
}

#[test]
fn hysteresis_holds_inside_band() {
    assert_eq!(step_phase(Phase::Idle, false, true), (Phase::Idle, Transition::Hold));
    assert_eq!(step_phase(Phase::Idle, false, false), (Phase::Idle, Transition::Hold));
    assert_eq!(step_phase(Phase::InSpike, false, false), (Phase::InSpike, Transition::Hold));
    assert_eq!(step_phase(Phase::InSpike, true, false), (Phase::InSpike, Transition::Hold));
    assert_eq!(step_phase(Phase::InSpike, false, true), (Phase::Idle, Transition::End));
}

#[test]
fn window_keeps_latest_entries() {
    let mut cw = ChatWindow::<2, 12, ()>::new();
    cw.push("one".to_string());
    cw.push("two".to_string());
    cw.push("three".to_string());
    assert_eq!(cw.len(), 2);
    assert_eq!(cw.get(0).chat.as_str(), "two");
    assert_eq!(cw.get(1).chat.as_str(), "three");
    assert_eq!(cw.last_chat_idx, 0);
}

#[test]
fn window_push_tokenized_normalizes_and_counts() {
    let mut cw = ChatWindow::<3, 12, u32>::new().with_ngram_range(1, 2);
    let tokens = cw.push_tokenized("heeeey!go".to_string(), Some(7));
    assert_eq!(cw.last_chat_idx, 1);
    assert_eq!(cw.len(), 1);
    // character runs capped at three, emphasis run set off by a space
    assert_eq!(cw.get(0).chat.as_str(), "heeey! go");
    assert_eq!(cw.get(0).data, Some(7));
    let mut sorted = tokens.clone();
    sorted.sort();
    sorted.dedup();
    // tokens are already distinct
    assert_eq!(sorted.len(), tokens.len());
    assert!(tokens.iter().any(|t| t == "he"));
    assert!(tokens.iter().any(|t| t == "! "));
    assert!(!tokens.iter().any(|t| t == "eee"));
}

#[test]
fn window_push_tokenized_empty_message() {
    let mut cw = ChatWindow::<3, 12, ()>::new();
    let tokens = cw.push_tokenized(String::new(), None);
    assert!(tokens.is_empty());
    assert_eq!(cw.len(), 1);
    assert_eq!(cw.get(0).chat.as_str(), "");
    assert_eq!(cw.last_chat_idx, 1);
}

#[test]
fn window_retains_pushed_conversation() {
    let mut cw = ChatWindow::<3, 12, ()>::new();
    cw.push_tokenized("hello world".to_string(), None);
    cw.push_tokenized("hello world".to_string(), None);
    cw.push_tokenized("some noises".to_string(), None);
    assert_eq!(cw.len(), 3);
    assert_eq!(cw.get(0).chat.as_str(), "hello world");
    assert_eq!(cw.get(1).chat.as_str(), "hello world");
    assert_eq!(cw.get(2).chat.as_str(), "some noises");
    assert_eq!(cw.last_chat_idx, 3);
}

#[test]
fn window_reads_repeatable() {
    let mut cw = ChatWindow::<3, 12, ()>::new();
    cw.push_tokenized("hello world".to_string(), None);
    assert_eq!(cw.len(), cw.len());
    assert_eq!(cw.get(0).chat, cw.get(0).chat);
    let mut a = cw.iter();
    let mut b = cw.iter();
    assert_eq!(a.next().map(|c| c.chat.clone()), b.next().map(|c| c.chat.clone()));
    assert_eq!(a.next().is_none(), b.next().is_none());
}

#[test]
fn argmax_prefers_latest_tie() {
    assert_eq!(argmax_latest(&Vec::new()), None);
    assert_eq!(argmax_latest(&vec![5]), Some(0));
    assert_eq!(argmax_latest(&vec![1, 3, 2]), Some(1));
    assert_eq!(argmax_latest(&vec![3, 1, 3]), Some(2));
    assert_eq!(argmax_latest(&vec![2, 2, 2]), Some(2));
}

#[test]
fn vacuum_policy_thresholds() {
    // never below the minimum size
    assert!(!vacuum_due(8, 0));
    // past the minimum, due once grown by half again
    assert!(vacuum_due(9, 0));
    assert!(vacuum_due(9, 5));
    assert!(!vacuum_due(9, 6));
    assert!(!vacuum_due(30, 20));
    assert!(vacuum_due(31, 20));
}
