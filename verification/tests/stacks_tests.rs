use flamegraph_stacks::costs::Costs;
use flamegraph_stacks::costs::EventType;
use flamegraph_stacks::stack::Stack;
use flamegraph_stacks::stacks::Stacks;

fn ev(name: &str) -> EventType {
    EventType::new(String::from(name))
}

fn ir(value: u64) -> Costs {
    let mut c = Costs::new();
    c.insert(ev("Ir"), value);
    c
}

#[test]
fn add_without_base_equals_new() {
    let mut stacks = Stacks::new();
    stacks.add("main", ir(42), true, None);
    let added = stacks.last().unwrap();
    let fresh = Stack::new("main", ir(42), true);
    // Observationally equal: same frame count, same membership, same line.
    assert_eq!(added.entries.len(), fresh.entries.len());
    assert_eq!(added.contains("main", true), fresh.contains("main", true));
    assert_eq!(added.contains("main", false), fresh.contains("main", false));
    assert_eq!(
        added.to_string(&ev("Ir")).unwrap(),
        fresh.to_string(&ev("Ir")).unwrap()
    );
}

#[test]
fn add_with_base_extends_copy_and_leaves_base_untouched() {
    let base = Stack::new("a", ir(10), false);
    let mut stacks = Stacks::new();
    stacks.add("b", ir(5), false, Some(&base));
    // The new path is the base plus one appended frame...
    let last = stacks.last().unwrap();
    assert_eq!(last.entries.len(), 2);
    assert_eq!(last.to_string(&ev("Ir")).unwrap(), "a;b 5");
    // ...while the base keeps its frames and its own snapshot.
    assert_eq!(base.entries.len(), 1);
    assert_eq!(base.to_string(&ev("Ir")).unwrap(), "a 10");
}

#[test]
fn is_empty_push_last_and_iter() {
    let mut stacks = Stacks::new();
    assert!(stacks.is_empty());
    assert!(stacks.last().is_none());
    stacks.push(Stack::new("a", ir(1), false));
    stacks.push(Stack::new("b", ir(2), false));
    assert!(!stacks.is_empty());
    assert_eq!(stacks.last().unwrap().to_string(&ev("Ir")).unwrap(), "b 2");
    let all: Vec<String> = stacks
        .iter()
        .iter()
        .map(|s| s.to_string(&ev("Ir")).unwrap())
        .collect();
    assert_eq!(all, vec![String::from("a 1"), String::from("b 2")]);
}

#[test]
fn duplicate_paths_are_kept_in_order() {
    let mut stacks = Stacks::new();
    stacks.add("a", ir(1), false, None);
    stacks.add("a", ir(2), false, None);
    let all: Vec<String> = stacks
        .iter()
        .iter()
        .map(|s| s.to_string(&ev("Ir")).unwrap())
        .collect();
    assert_eq!(all, vec![String::from("a 1"), String::from("a 2")]);
}
