use soradyne_core::ffi::serializer::{
    format_giantt_item, serialize_giantt_item, serialize_giantt_state, GianttItem, GianttPriority,
    GianttState, GianttStatus,
};

fn names(list: &[&str]) -> Vec<String> {
    list.iter().map(|s| s.to_string()).collect()
}

#[test]
fn test_serialize_simple_item() {
    let item = GianttItem {
        id: "task_1".to_string(),
        title: "My Task".to_string(),
        status: GianttStatus::Todo,
        priority: GianttPriority::Medium,
        duration: Some("2d".to_string()),
        comment: None,
        tags: Vec::new(),
        charts: Vec::new(),
        requires: Vec::new(),
        anyof: Vec::new(),
        blocks: Vec::new(),
        time_constraints: Vec::new(),
    };

    let text = serialize_giantt_item(&item);
    assert!(text.contains("○"));
    assert!(text.contains("task_1"));
    assert!(text.contains("2d"));
    assert!(text.contains("\"My Task\""));
    assert!(text.contains("{}"));
}

#[test]
fn test_serialize_item_with_priority() {
    let item = GianttItem {
        id: "urgent".to_string(),
        title: "Urgent Task".to_string(),
        status: GianttStatus::InProgress,
        priority: GianttPriority::Critical,
        duration: Some("1h".to_string()),
        comment: None,
        tags: Vec::new(),
        charts: Vec::new(),
        requires: Vec::new(),
        anyof: Vec::new(),
        blocks: Vec::new(),
        time_constraints: Vec::new(),
    };

    let text = serialize_giantt_item(&item);
    assert!(text.contains("◑"));
    assert!(text.contains("urgent!!!"));
}

#[test]
fn test_serialize_item_with_tags_and_charts() {
    let item = GianttItem {
        id: "feature".to_string(),
        title: "New Feature".to_string(),
        status: GianttStatus::Todo,
        priority: GianttPriority::High,
        duration: Some("5d".to_string()),
        comment: None,
        tags: names(&["important", "backend"]),
        charts: names(&["Sprint1", "Q4"]),
        requires: Vec::new(),
        anyof: Vec::new(),
        blocks: Vec::new(),
        time_constraints: Vec::new(),
    };

    let text = serialize_giantt_item(&item);
    assert!(text.contains("feature!!"));
    assert!(text.contains("\"Q4\""));
    assert!(text.contains("\"Sprint1\""));
    assert!(text.contains("backend"));
    assert!(text.contains("important"));
}

#[test]
fn test_serialize_item_with_relations() {
    let item = GianttItem {
        id: "main_task".to_string(),
        title: "Main Task".to_string(),
        status: GianttStatus::Todo,
        priority: GianttPriority::Medium,
        duration: Some("3d".to_string()),
        comment: None,
        tags: Vec::new(),
        charts: Vec::new(),
        requires: names(&["dep1", "dep2"]),
        anyof: Vec::new(),
        blocks: names(&["blocked_task"]),
        time_constraints: Vec::new(),
    };

    let text = serialize_giantt_item(&item);
    assert!(text.contains(">>>"));
    assert!(text.contains("⊢[dep1,dep2]") || text.contains("⊢[dep2,dep1]"));
    assert!(text.contains("►[blocked_task]"));
}

#[test]
fn test_serialize_item_with_time_constraints() {
    let item = GianttItem {
        id: "deadline_task".to_string(),
        title: "Has Deadline".to_string(),
        status: GianttStatus::Todo,
        priority: GianttPriority::Medium,
        duration: Some("1d".to_string()),
        comment: None,
        tags: Vec::new(),
        charts: Vec::new(),
        requires: Vec::new(),
        anyof: Vec::new(),
        blocks: Vec::new(),
        time_constraints: vec!["due(2024-12-31,warn)".to_string()],
    };

    let text = serialize_giantt_item(&item);
    assert!(text.contains("@@@"));
    assert!(text.contains("due(2024-12-31,warn)"));
}

#[test]
fn test_serialize_item_with_comment() {
    let item = GianttItem {
        id: "commented".to_string(),
        title: "Task with Comment".to_string(),
        status: GianttStatus::Completed,
        priority: GianttPriority::Medium,
        duration: Some("1h".to_string()),
        comment: Some("This is a note".to_string()),
        tags: Vec::new(),
        charts: Vec::new(),
        requires: Vec::new(),
        anyof: Vec::new(),
        blocks: Vec::new(),
        time_constraints: Vec::new(),
    };

    let text = serialize_giantt_item(&item);
    assert!(text.contains("●"));
    assert!(text.contains("# This is a note"));
}

#[test]
fn test_serialize_state_multiple_items() {
    let items = vec![
        GianttItem {
            id: "task_a".to_string(),
            title: "Task A".to_string(),
            status: GianttStatus::Todo,
            priority: GianttPriority::Medium,
            duration: Some("1d".to_string()),
            ..Default::default()
        },
        GianttItem {
            id: "task_b".to_string(),
            title: "Task B".to_string(),
            status: GianttStatus::InProgress,
            priority: GianttPriority::High,
            duration: Some("2d".to_string()),
            ..Default::default()
        },
    ];

    let state = GianttState { items };
    let text = serialize_giantt_state(&state);

    assert!(text.contains("task_a"));
    assert!(text.contains("task_b"));

    let lines: Vec<_> = text.lines().collect();
    assert_eq!(lines.len(), 2);
    assert!(lines[0].contains("task_a"));
    assert!(lines[1].contains("task_b"));
}

#[test]
fn test_json_escape_title() {
    let item = GianttItem {
        id: "escaped".to_string(),
        title: "Task with \"quotes\" and\nnewline".to_string(),
        status: GianttStatus::Todo,
        priority: GianttPriority::Medium,
        duration: Some("1d".to_string()),
        ..Default::default()
    };

    let text = serialize_giantt_item(&item);
    assert!(text.contains("\\\"quotes\\\""));
    assert!(text.contains("\\n"));
}

#[test]
fn full_item_line_has_every_part_in_order() {
    let item = GianttItem {
        id: "ship".to_string(),
        title: "Ship it".to_string(),
        status: GianttStatus::Blocked,
        priority: GianttPriority::Low,
        duration: None,
        comment: Some("soon".to_string()),
        tags: names(&["zeta", "alpha"]),
        charts: names(&["Q4", "Launch"]),
        requires: names(&["b", "a"]),
        anyof: names(&["x"]),
        blocks: names(&["later"]),
        time_constraints: names(&["due(2025-01-01)", "window(5d)"]),
    };
    assert_eq!(
        serialize_giantt_item(&item),
        "⊘ ship... 0s \"Ship it\" {\"Launch\",\"Q4\"} alpha,zeta >>> ⊢[a,b] ⋲[x] ►[later] \
         @@@ due(2025-01-01) window(5d) # soon"
    );
}

#[test]
fn empty_comment_is_left_out() {
    let item = GianttItem {
        id: "t".to_string(),
        title: "T".to_string(),
        duration: Some("1d".to_string()),
        comment: Some(String::new()),
        ..Default::default()
    };
    assert_eq!(serialize_giantt_item(&item), "○ t 1d \"T\" {}");
}

#[test]
fn formatting_uses_the_given_title_text() {
    let item = GianttItem {
        id: "t".to_string(),
        title: "ignored here".to_string(),
        status: GianttStatus::Completed,
        priority: GianttPriority::Critical,
        duration: Some("2h".to_string()),
        ..Default::default()
    };
    assert_eq!(format_giantt_item(&item, "\"given\""), "● t!!! 2h \"given\" {}");
}

#[test]
fn state_text_does_not_depend_on_item_order() {
    let make = |id: &str, status: GianttStatus| GianttItem {
        id: id.to_string(),
        title: id.to_uppercase(),
        status,
        duration: Some("1d".to_string()),
        ..Default::default()
    };
    let forward = GianttState {
        items: vec![make("a", GianttStatus::Todo), make("b", GianttStatus::Completed), make("c", GianttStatus::Todo)],
    };
    let backward = GianttState {
        items: vec![make("c", GianttStatus::Todo), make("b", GianttStatus::Completed), make("a", GianttStatus::Todo)],
    };
    let text = serialize_giantt_state(&forward);
    assert_eq!(text, serialize_giantt_state(&backward));
    assert_eq!(text, "○ a 1d \"A\" {}\n● b 1d \"B\" {}\n○ c 1d \"C\" {}");
}

#[test]
fn empty_state_is_empty_text() {
    assert_eq!(serialize_giantt_state(&GianttState::default()), "");
}

#[test]
fn defaults_are_todo_and_medium() {
    assert_eq!(GianttStatus::default(), GianttStatus::Todo);
    assert_eq!(GianttPriority::default(), GianttPriority::Medium);
}

#[test]
fn state_lines_follow_item_ids_not_status() {
    let items = vec![
        GianttItem {
            id: "b".to_string(),
            title: "B".to_string(),
            status: GianttStatus::Todo,
            duration: Some("1d".to_string()),
            ..Default::default()
        },
        GianttItem {
            id: "a".to_string(),
            title: "A".to_string(),
            status: GianttStatus::Completed,
            duration: Some("1d".to_string()),
            ..Default::default()
        },
    ];
    let text = serialize_giantt_state(&GianttState { items });
    assert_eq!(text, "● a 1d \"A\" {}\n○ b 1d \"B\" {}");
}

#[test]
fn title_control_characters_are_escaped() {
    let item = GianttItem {
        id: "c".to_string(),
        title: "a\u{1}b\t\\".to_string(),
        duration: Some("1d".to_string()),
        ..Default::default()
    };
    assert_eq!(serialize_giantt_item(&item), "○ c 1d \"a\\u0001b\\t\\\\\" {}");
}
