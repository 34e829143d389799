use chat_overlay::text::Line;
use chat_overlay::text::TextRenderer;
use chat_overlay::text::MAX_LINES;

fn line(id: &str, username: &str, body: &str) -> Line {
    Line {
        id: id.to_string(),
        username: username.to_string(),
        body: body.to_string(),
        color: (255, 255, 255),
    }
}

#[test]
fn empty_history() {
    let r = TextRenderer::new(320, 720, 4);
    assert_eq!(r.len(), 0);
}

#[test]
fn push_grows_until_capacity() {
    let mut r = TextRenderer::new(320, 720, 4);
    for i in 0..MAX_LINES {
        r.push_line(line(&format!("{}", i), "a", "b"));
        assert_eq!(r.len(), i + 1);
    }
    r.push_line(line("extra", "a", "b"));
    assert_eq!(r.len(), MAX_LINES);
}

#[test]
fn newest_first_order() {
    let mut r = TextRenderer::new(320, 720, 4);
    r.push_line(line("first", "a", "b"));
    r.push_line(line("second", "a", "b"));
    assert_eq!(r.line_at(0).id, "second");
    assert_eq!(r.line_at(1).id, "first");
}

#[test]
fn eviction_drops_oldest() {
    // Push 31 messages with ids 1..=31 on a capacity-30 history: id 1 is
    // gone, ids 2..=31 are present, newest first with id 31 at index 0.
    let mut r = TextRenderer::new(320, 720, 4);
    for i in 1..=31 {
        r.push_line(line(&format!("{}", i), "user", "text"));
    }
    assert_eq!(r.len(), 30);
    assert_eq!(r.line_at(0).id, "31");
    assert_eq!(r.line_at(29).id, "2");
    for i in 0..30 {
        let expect = format!("{}", 31 - i);
        assert_eq!(r.line_at(i).id, expect);
        assert_ne!(r.line_at(i).id, "1");
    }
}

#[test]
fn display_text_concatenation() {
    let l = line("1", "Bob", "hi there");
    assert_eq!(l.display_text(), "Bob: hi there");
}

#[test]
fn line_text_matches_display_text() {
    let mut r = TextRenderer::new(320, 720, 4);
    r.push_line(line("1", "ann", "hello"));
    assert_eq!(r.line_text(0), "ann: hello");
}
