use chat_overlay::strutil::join_tokens;
use chat_overlay::strutil::split_tokens;
use chat_overlay::text::layout_line;
use chat_overlay::text::Line;
use chat_overlay::text::LineMeasure;
use chat_overlay::text::TextRenderer;
use chat_overlay::wrap::wrap_tokens;

#[test]
fn split_on_single_spaces() {
    let t = split_tokens("ann: hi there");
    assert_eq!(t, vec!["ann:", "hi", "there"]);
}

#[test]
fn split_keeps_empty_tokens() {
    let t = split_tokens("a  b");
    assert_eq!(t, vec!["a", "", "b"]);
    assert_eq!(split_tokens(""), vec![""]);
    assert_eq!(split_tokens(" x"), vec!["", "x"]);
}

#[test]
fn join_restores_split() {
    let s = "one two  three ";
    let t = split_tokens(s);
    let j = join_tokens(&t, 0, t.len());
    assert_eq!(j, s);
}

#[test]
fn wrap_fitting_tokens_single_row() {
    // Total width 10 + 2 + 10 + 2 + 10 = 34 <= 100: one row of all tokens.
    let rows = wrap_tokens(&vec![10, 10, 10], 2, 100);
    assert_eq!(rows, vec![(0, 3)]);
}

#[test]
fn wrap_breaks_greedily() {
    // 10 + 2 + 10 = 22 fits in 25; adding the third (34) does not.
    let rows = wrap_tokens(&vec![10, 10, 10], 2, 25);
    assert_eq!(rows, vec![(0, 2), (2, 3)]);
}

#[test]
fn wrap_overflowing_token_stands_alone() {
    // A token wider than the row is not split; it overflows on its own row.
    let rows = wrap_tokens(&vec![30, 10], 2, 25);
    assert_eq!(rows, vec![(0, 1), (1, 2)]);
}

#[test]
fn wrap_no_tokens_no_rows() {
    let rows = wrap_tokens(&vec![], 2, 25);
    assert!(rows.is_empty());
}

#[test]
fn layout_fitting_line_two_color_overdraw() {
    // A fitting line yields the whole text in white plus the leading token
    // re-drawn in the line's color at the same position.
    let text = String::from("bob: hi");
    let tokens = split_tokens(&text);
    let m = LineMeasure { token_widths: vec![30, 20], full_width: 52 };
    let (cmds, next_y) = layout_line(&text, &tokens, &m, 5, 100, 4, 700, 20, (255, 128, 0));
    assert_eq!(cmds.len(), 2);
    assert_eq!(cmds[0].text, "bob: hi");
    assert_eq!(cmds[0].x, 4);
    assert_eq!(cmds[0].y, 700);
    assert_eq!(cmds[0].color, (255, 255, 255));
    assert_eq!(cmds[1].text, "bob:");
    assert_eq!(cmds[1].y, 700);
    assert_eq!(cmds[1].color, (255, 128, 0));
    // One row advance of 20 - 14 = 6.
    assert_eq!(next_y, 694);
}

#[test]
fn layout_wrapped_line_bottom_anchored() {
    // Three tokens of width 10, space 5, available width 20: every pair
    // would measure 25, so each token gets its own row. The block is shifted
    // up so its bottom row sits at the cursor, and the cursor advances by
    // rows x (line height - offset).
    let text = String::from("aa bb cc");
    let tokens = split_tokens(&text);
    let m = LineMeasure { token_widths: vec![10, 10, 10], full_width: 40 };
    let (cmds, next_y) = layout_line(&text, &tokens, &m, 5, 20, 4, 100, 20, (1, 2, 3));
    assert_eq!(cmds.len(), 4);
    assert_eq!(cmds[0].text, "aa");
    assert_eq!(cmds[0].y, 88);
    assert_eq!(cmds[1].text, "bb");
    assert_eq!(cmds[1].y, 94);
    assert_eq!(cmds[2].text, "cc");
    assert_eq!(cmds[2].y, 100);
    // The colored leading token overlays the first (top) row.
    assert_eq!(cmds[3].text, "aa");
    assert_eq!(cmds[3].y, 88);
    assert_eq!(cmds[3].color, (1, 2, 3));
    // Bottom row aligns with the unwrapped cursor position, and the total
    // advance is 3 rows x 6.
    assert_eq!(cmds[2].y, 100);
    assert_eq!(next_y, 100 - 18);
}

#[test]
fn render_empty_history_draws_nothing() {
    let r = TextRenderer::new(320, 720, 4);
    let cmds = r.render(&vec![], 5, 20);
    assert!(cmds.is_empty());
}

#[test]
fn render_single_line_at_bottom() {
    // Window 320x720, margin 4: text area 312x712. Starting cursor is
    // 720 - 4 - 20 = 696.
    let mut r = TextRenderer::new(320, 720, 4);
    r.push_line(Line {
        id: String::from("1"),
        username: String::from("bob"),
        body: String::from("hi"),
        color: (9, 8, 7),
    });
    let m = LineMeasure { token_widths: vec![30, 20], full_width: 52 };
    let cmds = r.render(&vec![m], 5, 20);
    assert_eq!(cmds.len(), 2);
    assert_eq!(cmds[0].text, "bob: hi");
    assert_eq!(cmds[0].x, 4);
    assert_eq!(cmds[0].y, 696);
    assert_eq!(cmds[0].color, (255, 255, 255));
    assert_eq!(cmds[1].text, "bob:");
    assert_eq!(cmds[1].y, 696);
    assert_eq!(cmds[1].color, (9, 8, 7));
}

#[test]
fn render_stacks_older_lines_upward() {
    let mut r = TextRenderer::new(320, 720, 4);
    for (id, body) in [("1", "first"), ("2", "second")] {
        r.push_line(Line {
            id: id.to_string(),
            username: String::from("u"),
            body: body.to_string(),
            color: (0, 0, 0),
        });
    }
    let measures = vec![
        LineMeasure { token_widths: vec![10, 10], full_width: 22 },
        LineMeasure { token_widths: vec![10, 10], full_width: 22 },
    ];
    let cmds = r.render(&measures, 2, 20);
    assert_eq!(cmds.len(), 4);
    // Newest line ("2") drawn at the bottom cursor, older one a row above.
    assert_eq!(cmds[0].text, "u: second");
    assert_eq!(cmds[0].y, 696);
    assert_eq!(cmds[2].text, "u: first");
    assert_eq!(cmds[2].y, 690);
}
