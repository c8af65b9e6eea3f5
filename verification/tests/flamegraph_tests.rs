use flamegraph_stacks::costs::Costs;
use flamegraph_stacks::costs::EventType;
use flamegraph_stacks::error::FlamegraphError;
use flamegraph_stacks::flamegraph::Flamegraph;
use flamegraph_stacks::output::FlamegraphOutput;
use flamegraph_stacks::stacks::Stacks;

fn ev(name: &str) -> EventType {
    EventType::new(String::from(name))
}

fn ir(value: u64) -> Costs {
    let mut c = Costs::new();
    c.insert(ev("Ir"), value);
    c
}

fn two_path_stacks() -> Stacks {
    let mut stacks = Stacks::new();
    stacks.add("a", ir(10), false, None);
    let base = stacks.last().unwrap().clone();
    stacks.add("b", ir(5), false, Some(&base));
    stacks
}

#[test]
fn lines_for_renders_every_stack_in_order() {
    let fg = Flamegraph {
        types: vec![ev("Ir")],
        title: String::from("title"),
        stacks: two_path_stacks(),
    };
    let lines = fg.lines_for(&ev("Ir")).unwrap();
    assert_eq!(lines, vec![String::from("a 10"), String::from("a;b 5")]);
}

#[test]
fn create_on_empty_stacks_is_success_without_output() {
    let fg = Flamegraph {
        types: vec![ev("Ir")],
        title: String::from("title"),
        stacks: Stacks::new(),
    };
    // No collected paths: success, and nothing to write anywhere.
    assert!(matches!(fg.create(), Ok(None)));
}

#[test]
fn create_renders_svg_bytes() {
    let fg = Flamegraph {
        types: vec![ev("Ir")],
        title: String::from("benchmark"),
        stacks: two_path_stacks(),
    };
    let outputs = fg.create().unwrap().unwrap();
    assert_eq!(outputs.len(), 1);
    assert!(!outputs[0].is_empty());
    let text = String::from_utf8(outputs[0].clone()).unwrap();
    assert!(text.contains("<svg"));
    assert!(text.contains("benchmark"));
}

#[test]
fn create_renders_one_complete_svg_per_event_type() {
    let mut costs = Costs::new();
    costs.insert(ev("Ir"), 7);
    costs.insert(ev("Dr"), 3);
    let mut stacks = Stacks::new();
    stacks.add("main", costs, false, None);
    let fg = Flamegraph {
        types: vec![ev("Ir"), ev("Dr")],
        title: String::from("title"),
        stacks,
    };
    let outputs = fg.create().unwrap().unwrap();
    assert_eq!(outputs.len(), 2);
    for bytes in &outputs {
        let text = String::from_utf8(bytes.clone()).unwrap();
        // Each event type yields one self-contained SVG document.
        assert!(text.contains("<svg"));
        assert!(text.contains("</svg>"));
    }
}

#[test]
fn create_fails_when_a_type_has_zero_total_cost() {
    let mut stacks = Stacks::new();
    stacks.add("main", ir(0), false, None);
    let fg = Flamegraph {
        types: vec![ev("Ir")],
        title: String::from("title"),
        stacks,
    };
    assert!(matches!(
        fg.create(),
        Err(FlamegraphError::RenderFailed(_))
    ));
}

#[test]
fn create_fails_when_the_only_line_is_a_comment() {
    // A lone frame labeled `#` renders to the line `# 5`, which the engine
    // drops as a comment: nothing is counted, the render fails. Such a
    // label is exactly what the success contract's cleanliness excludes.
    let mut stacks = Stacks::new();
    stacks.add("#", ir(5), false, None);
    let fg = Flamegraph {
        types: vec![ev("Ir")],
        title: String::from("title"),
        stacks,
    };
    assert!(matches!(
        fg.create(),
        Err(FlamegraphError::RenderFailed(_))
    ));
}

#[test]
fn create_aborts_on_missing_metric() {
    let fg = Flamegraph {
        types: vec![ev("EstimatedCycles")],
        title: String::from("title"),
        stacks: two_path_stacks(),
    };
    match fg.create() {
        Err(FlamegraphError::MissingMetric(name)) => {
            assert_eq!(name, "EstimatedCycles");
            assert_eq!(
                FlamegraphError::MissingMetric(name).message(),
                "Error creating flamegraph: Event type 'EstimatedCycles' not found"
            );
        }
        other => panic!("expected a missing-metric failure, got {:?}", other.is_ok()),
    }
}

#[test]
fn create_aborts_even_after_earlier_type_rendered() {
    // The second requested type is absent from every snapshot: the whole
    // call fails, no partial result is handed back.
    let fg = Flamegraph {
        types: vec![ev("Ir"), ev("Dr")],
        title: String::from("title"),
        stacks: two_path_stacks(),
    };
    match fg.create() {
        Err(FlamegraphError::MissingMetric(name)) => assert_eq!(name, "Dr"),
        _ => panic!("expected a missing-metric failure"),
    }
}

#[test]
fn missing_metric_message_names_the_event_type() {
    let err = FlamegraphError::MissingMetric(String::from("Ir"));
    assert_eq!(
        err.message(),
        "Error creating flamegraph: Event type 'Ir' not found"
    );
}

#[test]
fn error_messages_carry_their_cause() {
    assert_eq!(
        FlamegraphError::BackupFailed(String::from("cause")).message(),
        "Error copying flamegraph file: cause"
    );
    assert_eq!(
        FlamegraphError::CreateFailed(String::from("cause")).message(),
        "Creating flamegraph file failed: cause"
    );
    assert_eq!(
        FlamegraphError::RenderFailed(String::from("cause")).message(),
        "Creating flamegraph file failed: cause"
    );
}

#[test]
fn resolve_replaces_extension_with_svg() {
    assert_eq!(FlamegraphOutput::resolve("out/callgrind.out").0, "out/callgrind.svg");
    assert_eq!(FlamegraphOutput::resolve("a/b.tar.gz").0, "a/b.tar.svg");
}

#[test]
fn resolve_appends_svg_when_there_is_no_extension() {
    assert_eq!(FlamegraphOutput::resolve("noext").0, "noext.svg");
    assert_eq!(FlamegraphOutput::resolve("dir.d/noext").0, "dir.d/noext.svg");
    assert_eq!(FlamegraphOutput::resolve(".hidden").0, ".hidden.svg");
}

#[test]
fn backup_path_is_the_svg_old_sibling() {
    let out = FlamegraphOutput::resolve("out/callgrind.out");
    assert_eq!(out.old_path(), "out/callgrind.svg.old");
}

#[test]
fn per_event_type_destinations_are_distinct() {
    let out = FlamegraphOutput::resolve("out/callgrind.out");
    assert_eq!(out.for_event_type(&ev("Ir")), "out/callgrind.Ir.svg");
    assert_eq!(out.for_event_type(&ev("Dr")), "out/callgrind.Dr.svg");
}
