use blvflag::graph::{parse_line_number, Graph};

const TRACEBACK: &str = "Traceback (most recent call last):\n  File \"/tmp/t.py\", line 5, in <module>\n    main()\n  File \"/tmp/t.py\", line 2, in main\n    raise ValueError(\"bad value\")\nValueError: bad value\n";

#[test]
fn traceback_becomes_a_chain_of_frames() {
    let g = Graph::new(TRACEBACK);
    assert_eq!(g.nodes.len(), 2);
    assert_eq!(g.nodes[0].file, "/tmp/t.py");
    assert_eq!(g.nodes[0].line, 5);
    assert_eq!(g.nodes[0].function, "<module>");
    assert_eq!(g.nodes[1].line, 2);
    assert_eq!(g.nodes[1].function, "main");
    assert_eq!(g.edges, vec![(0, 1)]);
    assert_eq!(g.error_type, "ValueError");
    assert_eq!(g.message, "bad value");
    assert!(!g.timestamp.is_empty());
}

#[test]
fn text_without_frames_gives_no_nodes() {
    let g = Graph::new("SyntaxError: invalid syntax");
    assert!(g.nodes.is_empty());
    assert!(g.edges.is_empty());
    assert_eq!(g.error_type, "SyntaxError");
    assert_eq!(g.message, "invalid syntax");
}

#[test]
fn graph_from_captured_frames() {
    let frames = vec![
        ("a.py".to_string(), "1".to_string(), "f".to_string()),
        ("b.py".to_string(), "99999999999999999999999".to_string(), "g".to_string()),
        ("c.py".to_string(), "+7".to_string(), "h".to_string()),
    ];
    let g = Graph::from_captures("KeyError: 'k'\n\n", frames, "stamp".to_string());
    assert_eq!(g.nodes.len(), 3);
    assert_eq!(g.nodes[1].line, 0);
    assert_eq!(g.nodes[2].line, 7);
    assert_eq!(g.edges, vec![(0, 1), (1, 2)]);
    assert_eq!(g.error_type, "KeyError");
    assert_eq!(g.message, "'k'");
    assert_eq!(g.timestamp, "stamp");
}

#[test]
fn error_line_without_message() {
    assert_eq!(
        Graph::extract_error_type("Traceback\nKeyboardInterrupt\n  \n"),
        ("KeyboardInterrupt".to_string(), String::new())
    );
    assert_eq!(Graph::extract_error_type(""), (String::new(), String::new()));
    assert_eq!(
        Graph::extract_error_type("E: a: b"),
        ("E".to_string(), "a: b".to_string())
    );
}

#[test]
fn line_numbers_parse_like_usize() {
    assert_eq!(parse_line_number("42"), 42);
    assert_eq!(parse_line_number("+3"), 3);
    assert_eq!(parse_line_number(""), 0);
    assert_eq!(parse_line_number("+"), 0);
    assert_eq!(parse_line_number("-1"), 0);
    assert_eq!(parse_line_number("1a"), 0);
    assert_eq!(parse_line_number("007"), 7);
    assert_eq!(parse_line_number(&usize::MAX.to_string()), usize::MAX);
}

#[test]
fn saving_succeeds() {
    let g = Graph::new("x");
    assert!(g.save().is_ok());
}
