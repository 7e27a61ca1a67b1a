use mcmanage::log_buffer::LogBuffer;

#[test]
fn new_buffer_is_empty() {
    let buf = LogBuffer::new();
    assert_eq!(buf.len(), 0);
    assert_eq!(buf.render(), "");
}

#[test]
fn render_joins_lines_with_newlines() {
    let mut buf = LogBuffer::new();
    buf.append("first".to_string());
    buf.append("second".to_string());
    buf.append("third".to_string());
    assert_eq!(buf.len(), 3);
    assert_eq!(buf.render(), "first\nsecond\nthird");
}

#[test]
fn render_of_single_line_has_no_newline() {
    let mut buf = LogBuffer::new();
    buf.append("only".to_string());
    assert_eq!(buf.render(), "only");
}

#[test]
fn capacity_is_never_exceeded() {
    let mut buf = LogBuffer::new();
    for i in 0..250 {
        buf.append(format!("line {}", i));
        assert!(buf.len() <= 200);
    }
    assert_eq!(buf.len(), 200);
}

#[test]
fn appending_250_lines_keeps_lines_51_through_250_in_order() {
    let mut buf = LogBuffer::new();
    for i in 1..=250 {
        buf.append(format!("line {}", i));
    }
    let mut expected = Vec::new();
    for i in 51..=250 {
        expected.push(format!("line {}", i));
    }
    assert_eq!(buf.render(), expected.join("\n"));
}

#[test]
fn append_many_matches_one_at_a_time() {
    let mut one_at_a_time = LogBuffer::new();
    let mut batched = LogBuffer::new();
    let lines: Vec<String> = (0..210).map(|i| format!("entry {}", i)).collect();
    for line in lines.clone() {
        one_at_a_time.append(line);
    }
    batched.append_many(lines);
    assert_eq!(batched.len(), 200);
    assert_eq!(batched.render(), one_at_a_time.render());
}

#[test]
fn eviction_is_first_in_first_out() {
    let mut buf = LogBuffer::new();
    for i in 0..200 {
        buf.append(format!("{}", i));
    }
    buf.append("newest".to_string());
    let rendered = buf.render();
    assert!(rendered.starts_with("1\n"));
    assert!(rendered.ends_with("\nnewest"));
    assert!(!rendered.starts_with("0\n"));
}
