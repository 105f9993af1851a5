use agmd::agmd::{parse_agmd, Agmd};
use agmd::date::Date;
use agmd::markdown::{extract_tasks, parse_markdown, MdEvent, StreamError, VTodo};

fn d(y: u16, m: u8, day: u8) -> Date {
    Date::new(y, m, day).unwrap()
}

#[test]
fn end_to_end_two_tasks() {
    let doc = "- [ ] Buy milk [sched](agmd:2025-12-01)\n\
               - [x] Done [sched](agmd:start=2025-01-01;due=2025-01-31)\n";
    let tasks = parse_markdown(doc).unwrap();
    assert_eq!(tasks.len(), 2);
    assert!(!tasks[0].checked);
    assert_eq!(tasks[0].text, "Buy milk");
    assert_eq!(
        tasks[0].agmd,
        Some(Agmd { start: Some(d(2025, 12, 1)), due: Some(d(2025, 12, 1)) })
    );
    assert_eq!(tasks[0].raw, "2025-12-01");
    assert!(tasks[1].checked);
    assert_eq!(tasks[1].text, "Done");
    assert_eq!(
        tasks[1].agmd,
        Some(Agmd { start: Some(d(2025, 1, 1)), due: Some(d(2025, 1, 31)) })
    );
}

#[test]
fn non_task_item_yields_nothing() {
    let doc = "- plain entry [sched](agmd:2025-12-01)\n";
    let tasks = parse_markdown(doc).unwrap();
    assert_eq!(tasks.len(), 0);
}

#[test]
fn task_without_annotation_yields_nothing() {
    let doc = "- [ ] no schedule here\n- [x] plain [link](https://example.com)\n";
    let tasks = parse_markdown(doc).unwrap();
    assert_eq!(tasks.len(), 0);
}

#[test]
fn plain_link_label_stays_in_text() {
    let doc = "- [ ] see [docs](https://example.com) now [s](agmd:2025-12-01)\n";
    let tasks = parse_markdown(doc).unwrap();
    assert_eq!(tasks.len(), 1);
    assert_eq!(tasks[0].text, "see docs now");
}

#[test]
fn malformed_annotation_is_kept_visible() {
    let doc = "- [ ] broken [s](agmd:start=2025-99-01)\n";
    let tasks = parse_markdown(doc).unwrap();
    assert_eq!(tasks.len(), 1);
    assert_eq!(tasks[0].agmd, None);
    assert_eq!(tasks[0].raw, "start=2025-99-01");
}

#[test]
fn nested_items_do_not_leak_text() {
    let events = vec![
        MdEvent::ItemStart,
        MdEvent::TaskListMarker(false),
        MdEvent::Text(String::from("outer")),
        MdEvent::LinkStart(String::from("agmd:2025-01-01")),
        MdEvent::Text(String::from("label")),
        MdEvent::LinkEnd,
        MdEvent::ItemStart,
        MdEvent::TaskListMarker(true),
        MdEvent::Text(String::from("inner")),
        MdEvent::LinkStart(String::from("agmd:2025-02-02")),
        MdEvent::LinkEnd,
        MdEvent::ItemEnd,
        MdEvent::Text(String::from(" tail")),
        MdEvent::ItemEnd,
    ];
    let tasks = extract_tasks(&events).unwrap();
    assert_eq!(tasks.len(), 2);
    assert_eq!(tasks[0].text, "inner");
    assert!(tasks[0].checked);
    assert_eq!(tasks[0].agmd.unwrap().start, Some(d(2025, 2, 2)));
    assert_eq!(tasks[1].text, "outer tail");
    assert!(!tasks[1].checked);
    assert_eq!(tasks[1].agmd.unwrap().start, Some(d(2025, 1, 1)));
}

#[test]
fn annotation_label_is_excluded() {
    let events = vec![
        MdEvent::ItemStart,
        MdEvent::TaskListMarker(false),
        MdEvent::Text(String::from("  task body ")),
        MdEvent::LinkStart(String::from("x-agmd:2025-03-04")),
        MdEvent::Text(String::from("IGNORED")),
        MdEvent::LinkEnd,
        MdEvent::ItemEnd,
    ];
    let tasks = extract_tasks(&events).unwrap();
    assert_eq!(tasks.len(), 1);
    assert_eq!(tasks[0].text, "task body");
    assert_eq!(tasks[0].raw, "2025-03-04");
}

#[test]
fn unbalanced_item_end_is_fatal() {
    assert_eq!(
        extract_tasks(&vec![MdEvent::ItemEnd]),
        Err(StreamError::UnbalancedItem)
    );
}

#[test]
fn marker_outside_item_is_fatal() {
    assert_eq!(
        extract_tasks(&vec![MdEvent::TaskListMarker(true)]),
        Err(StreamError::MarkerOutsideItem)
    );
    assert_eq!(
        StreamError::MarkerOutsideItem.message(),
        "task marker should be in item"
    );
    assert_eq!(StreamError::UnbalancedItem.message(), "expect end of item");
}

#[test]
fn other_events_are_ignored() {
    let events = vec![
        MdEvent::Other,
        MdEvent::ItemStart,
        MdEvent::TaskListMarker(true),
        MdEvent::Other,
        MdEvent::Text(String::from("x")),
        MdEvent::LinkStart(String::from("agmd:")),
        MdEvent::LinkEnd,
        MdEvent::ItemEnd,
        MdEvent::Other,
    ];
    let tasks = extract_tasks(&events).unwrap();
    assert_eq!(tasks.len(), 1);
    // empty annotation body parses to the fully open interval
    assert_eq!(tasks[0].agmd, Some(Agmd { start: None, due: None }));
}

#[test]
fn render_forms() {
    let v = VTodo {
        checked: true,
        text: String::from("Done"),
        agmd: parse_agmd("start=2025-01-01;due=2025-01-31"),
        raw: String::from("start=2025-01-01;due=2025-01-31"),
    };
    assert_eq!(v.render(), "- [x] Done <agmd:start=2025-01-01;due=2025-01-31>");
    let w = VTodo {
        checked: false,
        text: String::from("Buy milk"),
        agmd: parse_agmd("2025-12-01"),
        raw: String::from("2025-12-01"),
    };
    assert_eq!(w.render(), "- [ ] Buy milk <agmd:2025-12-01>");
    let open = VTodo {
        checked: false,
        text: String::from("anytime"),
        agmd: Some(Agmd { start: None, due: None }),
        raw: String::new(),
    };
    assert_eq!(open.render(), "- [ ] anytime <agmd:>");
    let malformed = VTodo {
        checked: false,
        text: String::from("broken"),
        agmd: None,
        raw: String::from("start=2025-99-01"),
    };
    assert_eq!(malformed.render(), "- [ ] broken <agmd:>");
}

#[test]
fn render_then_reparse_reproduces_schedule() {
    for body in ["2025-12-01", "start=2025-11-30;due=2025-12-20", "due=2025-12-30", "start=2025-03-05", ""] {
        let parsed = parse_agmd(body);
        assert!(parsed.is_some());
        let v = VTodo {
            checked: false,
            text: String::from("t"),
            agmd: parsed,
            raw: String::from(body),
        };
        let rendered = v.render();
        let open = rendered.find("<agmd:").unwrap() + "<agmd:".len();
        let close = rendered.rfind('>').unwrap();
        let reparsed = parse_agmd(&rendered[open..close]);
        assert_eq!(reparsed, parsed);
    }
}
