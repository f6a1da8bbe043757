use rustique::relay::{
    forward_line, relay_input, relay_output, should_forward, tag_output_line, InputRelay,
};

#[test]
fn input_relay_forwards_plain_lines_and_suppresses_comments() {
    let lines = vec![
        String::from("#comment"),
        String::from("hello"),
        String::from("world"),
    ];
    let written = relay_input(&lines);
    assert_eq!(written, vec![String::from("hello\n"), String::from("world\n")]);
}

#[test]
fn input_relay_suppresses_empty_lines() {
    let lines = vec![String::from(""), String::from("say hi"), String::from("#x")];
    let written = relay_input(&lines);
    assert_eq!(written, vec![String::from("say hi\n")]);
}

#[test]
fn should_forward_cases() {
    assert!(!should_forward(""));
    assert!(!should_forward("#comment"));
    assert!(!should_forward("#"));
    assert!(should_forward("stop"));
    assert!(should_forward(" #indented comment still forwards"));
}

#[test]
fn forward_line_appends_newline() {
    assert_eq!(forward_line("list").unwrap(), "list\n");
    assert!(forward_line("#note").is_none());
    assert!(forward_line("").is_none());
}

#[test]
fn output_relay_tags_lines_in_order() {
    let lines = vec![String::from("L1"), String::from("L2")];
    let shown = relay_output(&lines);
    assert_eq!(
        shown,
        vec![String::from("|MINECRAFT| L1"), String::from("|MINECRAFT| L2")]
    );
}

#[test]
fn output_relay_of_no_lines_shows_nothing() {
    let shown = relay_output(&Vec::new());
    assert!(shown.is_empty());
}

#[test]
fn tag_output_line_prefixes_marker() {
    assert_eq!(tag_output_line("Done (1.2s)!"), "|MINECRAFT| Done (1.2s)!");
}

#[test]
fn input_relay_state_stops_after_failed_write() {
    let mut relay = InputRelay::new();
    assert_eq!(relay.step("first").unwrap(), "first\n");
    relay.note_write(true);
    assert_eq!(relay.step("second").unwrap(), "second\n");
    relay.note_write(false);
    assert!(relay.step("third").is_none());
    relay.note_write(true);
    assert!(relay.step("fourth").is_none());
}
