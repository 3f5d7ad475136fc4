use crabwalker::history::History;
use crabwalker::lines::parse_store;
use crabwalker::lines::write_store;

fn cv(s: &str) -> Vec<char> {
    s.chars().collect()
}

fn cs(v: &Vec<char>) -> String {
    v.iter().collect()
}

fn lines_of(v: &Vec<Vec<char>>) -> Vec<String> {
    v.iter().map(cs).collect()
}

#[test]
fn push_then_pop_restores_stack() {
    let mut h = History::parse(&cv("A\nB\n"));
    let before = lines_of(&h.list_tail(10));
    h.push(cv("/tmp/somewhere"));
    let popped = h.pop_n(1);
    assert_eq!(popped.map(|p| cs(&p)), Some("/tmp/somewhere".to_string()));
    assert_eq!(h.len(), 2);
    assert_eq!(lines_of(&h.list_tail(10)), before);
}

#[test]
fn pop_more_than_length_clamps_to_oldest() {
    let mut h = History::parse(&cv("A\nB\nC\n"));
    let popped = h.pop_n(99);
    assert_eq!(popped.map(|p| cs(&p)), Some("A".to_string()));
    assert_eq!(h.len(), 0);

    let mut h2 = History::parse(&cv("A\nB\nC\n"));
    let popped2 = h2.pop_n(3);
    assert_eq!(popped2.map(|p| cs(&p)), Some("A".to_string()));
    assert_eq!(h2.len(), 0);
}

#[test]
fn list_tail_is_read_only_and_stable() {
    let h = History::parse(&cv("A\nB\nC\nD\n"));
    let first = lines_of(&h.list_tail(3));
    let second = lines_of(&h.list_tail(3));
    assert_eq!(first, vec!["D", "C", "B"]);
    assert_eq!(first, second);
    assert_eq!(h.len(), 4);
}

#[test]
fn list_tail_returns_all_when_short() {
    let h = History::parse(&cv("A\nB\n"));
    assert_eq!(lines_of(&h.list_tail(10)), vec!["B", "A"]);
}

#[test]
fn pop_two_of_three_returns_middle_and_keeps_first() {
    let mut h = History::parse(&cv("A\nB\nC\n"));
    let popped = h.pop_n(2);
    assert_eq!(popped.map(|p| cs(&p)), Some("B".to_string()));
    assert_eq!(cs(&h.to_text()), "A\n");
}

#[test]
fn pop_on_empty_history_yields_nothing_and_writes_nothing() {
    let mut h = History::parse(&cv(""));
    assert_eq!(h.pop_n(1), None);
    assert_eq!(cs(&h.to_text()), "");

    let mut absent = History::new();
    assert_eq!(absent.pop_n(1), None);
    assert_eq!(absent.len(), 0);
}

#[test]
fn parse_filters_blank_lines_and_carriage_returns() {
    let h = History::parse(&cv("A\r\n\n   \nB\n"));
    assert_eq!(lines_of(&h.list_tail(10)), vec!["B", "A"]);
}

#[test]
fn store_round_trips_written_stacks() {
    let mut h = History::new();
    h.push(cv("/home/u/one"));
    h.push(cv("/home/u/two"));
    let text = h.to_text();
    assert_eq!(cs(&text), "/home/u/one\n/home/u/two\n");
    let h2 = History::parse(&text);
    assert_eq!(lines_of(&h2.list_tail(10)), lines_of(&h.list_tail(10)));
}

#[test]
fn write_store_matches_parse_store() {
    let parsed = parse_store(&cv("x\ny\n"));
    assert_eq!(lines_of(&parsed), vec!["x", "y"]);
    let text = write_store(&parsed);
    assert_eq!(cs(&text), "x\ny\n");
}
