use flamegraph_stacks::costs::Costs;
use flamegraph_stacks::costs::EventType;
use flamegraph_stacks::stack::Stack;
use flamegraph_stacks::stacks::Stacks;

fn ev(name: &str) -> EventType {
    EventType::new(String::from(name))
}

fn ir(value: u64) -> Costs {
    let mut c = Costs::new();
    c.insert(ev("Ir"), value);
    c
}

#[test]
fn render_joins_entries_and_takes_last_snapshot() {
    let mut stack = Stack::new("main", ir(42), false);
    stack.add("util", ir(7), true);
    stack.add("work", ir(5), false);
    let line = stack.to_string(&ev("Ir")).unwrap();
    // The cost is the one of the most recent add alone, never 42 + 7 + 5.
    assert_eq!(line, "main;[util];work 5");
}

#[test]
fn render_single_entry() {
    let stack = Stack::new("main", ir(42), false);
    assert_eq!(stack.to_string(&ev("Ir")).unwrap(), "main 42");
}

#[test]
fn render_inline_entry_is_bracketed() {
    let stack = Stack::new("inlined", ir(1), true);
    assert_eq!(stack.to_string(&ev("Ir")).unwrap(), "[inlined] 1");
}

#[test]
fn render_cost_zero_is_distinct_from_absent() {
    let stack = Stack::new("main", ir(0), false);
    assert_eq!(stack.to_string(&ev("Ir")).unwrap(), "main 0");
    assert!(stack.to_string(&ev("Dr")).is_err());
}

#[test]
fn render_largest_cost() {
    let stack = Stack::new("main", ir(u64::MAX), false);
    assert_eq!(
        stack.to_string(&ev("Ir")).unwrap(),
        "main 18446744073709551615"
    );
}

#[test]
fn render_empty_stack_is_empty_line() {
    let stack = Stack {
        entries: Vec::new(),
        costs: Costs::new(),
    };
    assert_eq!(stack.to_string(&ev("Ir")).unwrap(), "");
}

#[test]
fn later_insert_shadows_earlier_cost() {
    let mut c = Costs::new();
    c.insert(ev("Ir"), 3);
    c.insert(ev("Ir"), 9);
    assert_eq!(c.cost_by_type(&ev("Ir")), Some(9));
    let stack = Stack::new("main", c, false);
    assert_eq!(stack.to_string(&ev("Ir")).unwrap(), "main 9");
}

#[test]
fn cost_lookup_absent_is_none() {
    let c = ir(12);
    assert_eq!(c.cost_by_type(&ev("Ir")), Some(12));
    assert_eq!(c.cost_by_type(&ev("EstimatedCycles")), None);
}

#[test]
fn contains_is_exact_pair_membership() {
    let mut stack = Stack::new("main", ir(1), false);
    stack.add("util", ir(1), true);
    assert!(stack.contains("main", false));
    assert!(stack.contains("util", true));
    // The flag is part of the pair: same label, other flag, no match.
    assert!(!stack.contains("main", true));
    assert!(!stack.contains("util", false));
    assert!(!stack.contains("other", false));
}

#[test]
fn contains_finds_pair_added_anywhere() {
    let mut stack = Stack::new("a", ir(1), false);
    stack.add("b", ir(1), false);
    stack.add("c", ir(1), true);
    stack.add("d", ir(1), false);
    assert!(stack.contains("c", true));
    assert!(stack.contains("a", false));
    assert!(!stack.contains("c", false));
}

#[test]
fn end_to_end_inline_path() {
    // One path main -> [inline_helper] -> work, snapshot Ir = 42.
    let mut stacks = Stacks::new();
    stacks.add("main", ir(42), false, None);
    let base = stacks.last().unwrap().clone();
    stacks.add("inline_helper", ir(42), true, Some(&base));
    let base = stacks.last().unwrap().clone();
    stacks.add("work", ir(42), false, Some(&base));
    let line = stacks.last().unwrap().to_string(&ev("Ir")).unwrap();
    assert_eq!(line, "main;[inline_helper];work 42");
}
