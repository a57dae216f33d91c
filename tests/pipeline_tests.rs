use lexicc::cache::{cache_entry_name, cache_key, decimal_string, plan_resolution, CachePlan};
use lexicc::inbox::{inbox_order, text_less_eq};
use lexicc::queue::{cede_to_running, is_idle, IngestError, Pending, LOW_WATER_MARK};

fn drain(p: &mut Pending) -> Vec<String> {
    let mut out = Vec::new();
    while let Some(s) = p.next_for_sink(0) {
        out.push(s);
    }
    out
}

#[test]
fn documents_are_played_in_name_then_line_order() {
    let names = inbox_order(vec!["b.txt".to_string(), "a.txt".to_string()]);
    assert_eq!(names, vec!["a.txt".to_string(), "b.txt".to_string()]);
    let mut p = Pending::new();
    for name in &names {
        let content = if name == "a.txt" { "Line one.\nLine two." } else { "Line three." };
        assert_eq!(p.ingest(content), Ok(()));
    }
    assert_eq!(drain(&mut p), vec!["Line one.", "Line two.", "Line three."]);
}

#[test]
fn unpunctuated_lines_are_joined_before_splitting() {
    let names = inbox_order(vec!["b.txt".to_string(), "a.txt".to_string()]);
    let mut p = Pending::new();
    for name in &names {
        let content = if name == "a.txt" { "Line1\nLine2" } else { "Line3" };
        assert_eq!(p.ingest(content), Ok(()));
    }
    let items = drain(&mut p);
    assert_eq!(items, vec!["Line1 Line2", "Line3"]);
    assert_eq!(items.join(" "), "Line1 Line2 Line3");
}

#[test]
fn blank_lines_give_two_items() {
    let mut p = Pending::new();
    assert_eq!(p.ingest("Hello\n\n\nWorld"), Ok(()));
    assert_eq!(p.len(), 2);
    assert_eq!(drain(&mut p), vec!["Hello", "World"]);
}

#[test]
fn refill_only_below_low_water_mark() {
    assert_eq!(LOW_WATER_MARK, 2);
    let mut p = Pending::new();
    assert_eq!(p.ingest("A.\nB.\nC."), Ok(()));
    assert_eq!(p.next_for_sink(2), None);
    assert_eq!(p.next_for_sink(3), None);
    assert_eq!(p.len(), 3);
    assert_eq!(p.next_for_sink(1), Some("A.".to_string()));
    assert_eq!(p.next_for_sink(0), Some("B.".to_string()));
    assert_eq!(p.len(), 1);
    let mut queued: usize = 0;
    let mut q = Pending::new();
    assert_eq!(q.ingest("1.\n2.\n3.\n4."), Ok(()));
    while let Some(_) = q.next_for_sink(queued) {
        queued += 1;
        assert!(queued <= LOW_WATER_MARK);
    }
    assert_eq!(queued, 2);
    assert_eq!(q.len(), 2);
}

#[test]
fn empty_queue_gives_nothing() {
    let mut p = Pending::new();
    assert!(p.is_empty());
    assert_eq!(p.next_for_sink(0), None);
    assert_eq!(p.ingest("   \n\t"), Ok(()));
    assert!(p.is_empty());
}

#[test]
fn idle_only_when_inbox_and_sink_are_empty() {
    assert!(is_idle(0, 0));
    assert!(!is_idle(1, 0));
    assert!(!is_idle(0, 1));
    assert!(!is_idle(3, 2));
}

#[test]
fn second_instance_cedes() {
    assert!(!cede_to_running(0));
    assert!(!cede_to_running(1));
    assert!(cede_to_running(2));
    assert!(cede_to_running(5));
}

#[test]
fn decimal_rendering() {
    assert_eq!(decimal_string(0), "0");
    assert_eq!(decimal_string(7), "7");
    assert_eq!(decimal_string(10), "10");
    assert_eq!(decimal_string(12345), "12345");
    assert_eq!(decimal_string(u64::MAX), "18446744073709551615");
}

#[test]
fn entry_name_is_the_decimal_digest() {
    let text = "<speak>hi</speak>";
    let name = cache_entry_name(text);
    assert_eq!(name, cache_key(text).to_string());
    assert_eq!(name, cache_entry_name(text));
    assert_ne!(name, text);
    assert_ne!(cache_key("a"), cache_key("b"));
}

#[test]
fn resolution_twice_synthesizes_once() {
    let text = "<speak>same</speak>";
    let mut store: std::collections::HashMap<String, Vec<u8>> = std::collections::HashMap::new();
    let mut calls = 0;
    let mut played = Vec::new();
    for _ in 0..2 {
        let stored = store.get(&cache_entry_name(text)).cloned();
        match plan_resolution(text, stored) {
            CachePlan::Play(bytes) => played.push(bytes),
            CachePlan::Synthesize(name) => {
                calls += 1;
                let audio = vec![1u8, 2, 3];
                store.insert(name, audio.clone());
                played.push(audio);
            }
        }
    }
    assert_eq!(calls, 1);
    assert_eq!(played[0], played[1]);
}

#[test]
fn document_names_sort_by_code_point() {
    let names = vec!["b.txt", "a.txt", "B.txt", "ab", "a", "a.txt"]
        .into_iter()
        .map(|s| s.to_string())
        .collect();
    assert_eq!(inbox_order(names), vec!["B.txt", "a", "a.txt", "a.txt", "ab", "b.txt"]);
    assert!(inbox_order(Vec::new()).is_empty());
    assert!(text_less_eq("a", "a"));
    assert!(text_less_eq("", "a"));
    assert!(!text_less_eq("b", "a"));
    assert!(text_less_eq("Z", "a"));
}
