use vstd::prelude::*;
use std::collections::VecDeque;
use vstd::string::StringExecFns;
use crate::strutil::split_spec;
use crate::strutil::split_tokens;
use crate::strutil::join_range;
use crate::strutil::join_tokens;
use crate::strutil::lemma_join_split;
use crate::strutil::lemma_split_from_len;
use crate::wrap::wrap_rows;
use crate::wrap::wrap_tokens;
use crate::wrap::rows_view;
use crate::wrap::lemma_wrap_rows_tile;
use crate::wrap::lemma_wrap_rows_count;

verus! {

/// Capacity of the scrolling history: pushing a line onto a full history
/// evicts the oldest one.
pub const MAX_LINES: usize = 30;

/// Fixed visual tightening, in pixels, subtracted from the font line height
/// when stacking rows.
pub const LINE_OFFSET: u32 = 14;

/// Upper bound on the number of tokens of one line that the layout accepts;
/// guards the fixed-width coordinate arithmetic.
pub const MAX_TOKENS_PER_LINE: usize = 0x100_0000;

/// Upper bound on the font line height, in pixels, that the layout accepts;
/// guards the fixed-width coordinate arithmetic.
pub const MAX_LINE_HEIGHT: u32 = 0x100_0000;

/// Bound on the cursor ordinate within which the layout arithmetic is exact.
pub const MAX_COORD: i64 = 0x40_0000_0000_0000;

/// Abstract value of a chat line.
pub ghost struct LineView {
    pub id: Seq<char>,
    pub username: Seq<char>,
    pub body: Seq<char>,
    pub color: (u8, u8, u8),
}

/// One chat line of the history, produced from a message event: who wrote
/// it, what they wrote, the message id (possibly empty), and the name color.
pub struct Line {
    pub id: String,
    pub username: String,
    pub body: String,
    pub color: (u8, u8, u8),
}

impl View for Line {
    type V = LineView;

    open spec fn view(&self) -> LineView {
        LineView {
            id: self.id@,
            username: self.username@,
            body: self.body@,
            color: self.color,
        }
    }
}

/// The text a line is displayed as: `username: body`.
pub open spec fn display_text_spec(l: LineView) -> Seq<char> {
    l.username + ": "@ + l.body
}

impl Line {
    /// The string this line is displayed as: `username: body`.
    pub fn display_text(&self) -> (t: String)
        ensures
            t@ == display_text_spec(self@),
    {
        let mut t = self.username.clone();
        t.append(": ");
        t.append(self.body.as_str());
        t
    }
}

/// One string to draw at a position in a color; the renderer executes these
/// without further decisions.
pub struct DrawCmd {
    pub text: String,
    pub x: i64,
    pub y: i64,
    pub color: (u8, u8, u8),
}

/// Abstract value of a draw command.
pub ghost struct DrawCmdView {
    pub text: Seq<char>,
    pub x: int,
    pub y: int,
    pub color: (u8, u8, u8),
}

impl View for DrawCmd {
    type V = DrawCmdView;

    open spec fn view(&self) -> DrawCmdView {
        DrawCmdView { text: self.text@, x: self.x as int, y: self.y as int, color: self.color }
    }
}

/// Pixel measurements of one line, supplied by the font capability: the
/// width of each token of the display text, and the width of the whole
/// display text on one row.
pub struct LineMeasure {
    pub token_widths: Vec<u32>,
    pub full_width: u32,
}

/// Abstract value of a line measurement.
pub ghost struct MeasureView {
    pub token_widths: Seq<u32>,
    pub full_width: u32,
}

impl View for LineMeasure {
    type V = MeasureView;

    open spec fn view(&self) -> MeasureView {
        MeasureView { token_widths: self.token_widths@, full_width: self.full_width }
    }
}

/// The bounded, newest-first history of chat lines together with the static
/// canvas geometry. Owned by the render loop alone; the network side only
/// ever hands events over a queue.
pub struct TextRenderer {
    text_width: u32,
    text_height: u32,
    margin: u32,
    lines: VecDeque<Line>,
}

impl TextRenderer {
    /// The stored lines, newest first.
    pub closed spec fn history(&self) -> Seq<LineView> {
        self.lines@.map_values(|l: Line| l@)
    }

    /// Canvas width minus both margins: the width available to text.
    pub closed spec fn text_width(&self) -> u32 {
        self.text_width
    }

    /// Canvas height minus both margins.
    pub closed spec fn text_height(&self) -> u32 {
        self.text_height
    }

    /// Margin, in pixels, kept on every side of the canvas.
    pub closed spec fn margin(&self) -> u32 {
        self.margin
    }

    /// The history never exceeds its capacity.
    pub closed spec fn wf(&self) -> bool {
        self.lines@.len() <= MAX_LINES
    }

    pub fn new(window_width: u32, window_height: u32, margin: u32) -> (r: Self)
        requires
            2 * margin <= window_width,
            2 * margin <= window_height,
        ensures
            r.wf(),
            r.history() == Seq::<LineView>::empty(),
            r.text_width() == window_width - 2 * margin,
            r.text_height() == window_height - 2 * margin,
            r.margin() == margin,
    {
        let r = TextRenderer {
            text_width: window_width - 2 * margin,
            text_height: window_height - 2 * margin,
            margin,
            lines: VecDeque::new(),
        };
        proof {
            assert(r.history() =~= Seq::<LineView>::empty());
        }
        r
    }

    /// Number of lines currently held.
    pub fn len(&self) -> (n: usize)
        ensures
            n == self.history().len(),
    {
        self.lines.len()
    }

    /// The line at position `i`, newest first.
    pub fn line_at(&self, i: usize) -> (l: &Line)
        requires
            i < self.history().len(),
        ensures
            l@ == self.history()[i as int],
    {
        &self.lines[i]
    }

    /// The display text of the line at position `i`, newest first.
    pub fn line_text(&self, i: usize) -> (t: String)
        requires
            i < self.history().len(),
        ensures
            t@ == display_text_spec(self.history()[i as int]),
    {
        self.lines[i].display_text()
    }

    /// Prepends `line` to the history. A full history first drops its oldest
    /// (last) entry, so the length never exceeds `MAX_LINES` and the evicted
    /// line is always the oldest one.
    pub fn push_line(&mut self, line: Line)
        requires
            old(self).wf(),
        ensures
            final (self).wf(),
            final (self).history() == seq![line@] + (if old(self).history().len() < MAX_LINES {
                old(self).history()
            } else {
                old(self).history().drop_last()
            }),
            final (self).history().len() == if old(self).history().len() < MAX_LINES {
                old(self).history().len() + 1
            } else {
                MAX_LINES as nat
            },
            final (self).text_width() == old(self).text_width(),
            final (self).text_height() == old(self).text_height(),
            final (self).margin() == old(self).margin(),
    {
        let ghost old_hist = self.history();
        if self.lines.len() == MAX_LINES {
            let _ = self.lines.pop_back();
            proof {
                assert(self.lines@ =~= old(self).lines@.drop_last());
                assert(self.history() =~= old_hist.drop_last());
            }
        }
        let ghost mid = self.lines@;
        self.lines.push_front(line);
        proof {
            assert(self.lines@ =~= seq![line] + mid);
            assert(self.history() =~= seq![line@] + mid.map_values(|l: Line| l@));
            if old_hist.len() >= MAX_LINES {
                assert(mid.map_values(|l: Line| l@) =~= old_hist.drop_last());
            }
        }
    }
}


/// Row height used when stacking rows: the font line height minus the fixed
/// visual tightening.
pub open spec fn row_advance(line_height: u32) -> int {
    line_height - LINE_OFFSET
}

/// The rows a measured line occupies: one row holding every token when the
/// whole text fits the available width, else the greedy wrap of its tokens.
pub open spec fn line_rows(m: MeasureView, space: u32, avail: u32) -> Seq<(int, int)> {
    if m.full_width <= avail {
        seq![(0int, m.token_widths.len() as int)]
    } else {
        wrap_rows(m.token_widths, space, avail, 0)
    }
}

/// The draw commands of one line at cursor `y`: its rows in white, top to
/// bottom, the whole block shifted upward so that the bottom row sits at
/// `y`, then the leading token re-drawn in the line's color over the first
/// row, which yields the two-color line.
pub open spec fn line_cmds(
    text: Seq<char>,
    color: (u8, u8, u8),
    m: MeasureView,
    space: u32,
    avail: u32,
    x: int,
    y: int,
    line_height: u32,
) -> Seq<DrawCmdView> {
    let tokens = split_spec(text);
    let rows = line_rows(m, space, avail);
    let n = rows.len() as int;
    let adv = row_advance(line_height);
    let start_y = y - adv * (n - 1);
    Seq::new(
        n as nat,
        |k: int|
            DrawCmdView {
                text: join_range(tokens, rows[k].0, rows[k].1),
                x: x,
                y: start_y + k * adv,
                color: (255u8, 255u8, 255u8),
            },
    ).push(DrawCmdView { text: tokens[0], x: x, y: start_y, color: color })
}

/// The cursor after laying out a line: one row advance per occupied row, so
/// consecutive lines stack without overlap.
pub open spec fn line_next_y(m: MeasureView, space: u32, avail: u32, y: int, line_height: u32) -> int {
    y - row_advance(line_height) * line_rows(m, space, avail).len()
}

/// Visual continuity across wrap and no-wrap: a line occupying `n` rows has
/// its bottom row exactly at the cursor `y`, consecutive rows a fixed
/// advance apart, and moves the cursor up by exactly `n` advances.
pub proof fn lemma_block_anchoring(
    text: Seq<char>,
    color: (u8, u8, u8),
    m: MeasureView,
    space: u32,
    avail: u32,
    x: int,
    y: int,
    line_height: u32,
)
    ensures
        ({
            let cmds = line_cmds(text, color, m, space, avail, x, y, line_height);
            let n = line_rows(m, space, avail).len() as int;
            let adv = row_advance(line_height);
            &&& cmds.len() == n + 1
            &&& n >= 1 ==> cmds[n - 1].y == y
            &&& forall|k: int| 0 <= k < n - 1 ==> (#[trigger] cmds[k + 1]).y - cmds[k].y == adv
            &&& line_next_y(m, space, avail, y, line_height) == y - n * adv
        }),
{
    let n = line_rows(m, space, avail).len() as int;
    let adv = row_advance(line_height);
    let cmds = line_cmds(text, color, m, space, avail, x, y, line_height);
    if n >= 1 {
        assert(y - adv * (n - 1) + (n - 1) * adv == y) by (nonlinear_arith);
    }
    assert forall|k: int| 0 <= k < n - 1 implies (#[trigger] cmds[k + 1]).y - cmds[k].y == adv by {
        assert((k + 1) * adv == k * adv + adv) by (nonlinear_arith);
    }
}

/// Lays one line out at cursor `y`: `text` is the display text, `tokens` its
/// space-split tokens, and `measure` their pixel widths. Returns the draw
/// commands of the line and the cursor for the next (older) line.
pub fn layout_line(
    text: &String,
    tokens: &Vec<String>,
    measure: &LineMeasure,
    space: u32,
    avail: u32,
    x: i64,
    y: i64,
    line_height: u32,
    color: (u8, u8, u8),
) -> (r: (Vec<DrawCmd>, i64))
    requires
        tokens@.map_values(|t: String| t@) == split_spec(text@),
        measure.token_widths@.len() == tokens@.len(),
        tokens@.len() <= MAX_TOKENS_PER_LINE,
        line_height <= MAX_LINE_HEIGHT,
        -MAX_COORD <= x <= MAX_COORD,
        -MAX_COORD <= y <= MAX_COORD,
    ensures
        r.0@.map_values(|c: DrawCmd| c@) == line_cmds(
            text@,
            color,
            measure@,
            space,
            avail,
            x as int,
            y as int,
            line_height,
        ),
        r.1 == line_next_y(measure@, space, avail, y as int, line_height),
        y - 0x1_0000_0000_0000 <= r.1 <= y + 0x1_0000_0000_0000,
{
    let ghost tokviews = tokens@.map_values(|t: String| t@);
    proof {
        lemma_split_from_len(text@, 0);
        assert(tokviews.len() == split_spec(text@).len());
    }
    let adv: i64 = line_height as i64 - LINE_OFFSET as i64;
    let mut cmds: Vec<DrawCmd> = Vec::new();
    if measure.full_width <= avail {
        cmds.push(DrawCmd { text: text.clone(), x, y, color: (255, 255, 255) });
        cmds.push(DrawCmd { text: tokens[0].clone(), x, y, color });
        proof {
            lemma_join_split(text@);
            let lc = line_cmds(
                text@,
                color,
                measure@,
                space,
                avail,
                x as int,
                y as int,
                line_height,
            );
            assert(line_rows(measure@, space, avail).len() == 1);
            assert(lc.len() == 2);
            assert(lc[0].y == y - row_advance(line_height) * 0);
            assert(cmds@.map_values(|c: DrawCmd| c@) =~= lc);
        }
        (cmds, y - adv)
    } else {
        let rows = wrap_tokens(&measure.token_widths, space, avail);
        let ghost rv = wrap_rows(measure.token_widths@, space, avail, 0);
        proof {
            lemma_wrap_rows_tile(measure.token_widths@, space, avail, 0);
            lemma_wrap_rows_count(measure.token_widths@, space, avail, 0);
        }
        let n = rows.len();
        proof {
            assert(rows_view(rows@).len() == rv.len());
            assert(1 <= n <= measure.token_widths@.len());
            assert(-(0x1_0000_0000_0000int) <= (adv as int) * (n - 1)
                <= 0x1_0000_0000_0000int) by (nonlinear_arith)
                requires
                    -14 <= adv as int <= 0x100_0000,
                    0 <= n as int - 1 < 0x100_0000,
            ;
        }
        let start_y = y - adv * ((n - 1) as i64);
        let mut yy = start_y;
        let mut k: usize = 0;
        while k < n
            invariant
                0 <= k <= n,
                n == rv.len(),
                n == rows@.len(),
                1 <= n <= 0x100_0000,
                rows_view(rows@) == rv,
                tokviews == tokens@.map_values(|t: String| t@),
                tokviews.len() == measure.token_widths@.len(),
                forall|i: int| 0 <= i < rv.len() ==> (#[trigger] rv[i]).0 < rv[i].1
                    <= measure.token_widths@.len(),
                -14 <= adv as int <= 0x100_0000,
                -MAX_COORD <= x <= MAX_COORD,
                -MAX_COORD <= y <= MAX_COORD,
                start_y as int == y - (adv as int) * (n - 1),
                y - 0x1_0000_0000_0000 <= start_y as int <= y + 0x1_0000_0000_0000,
                yy as int == start_y + k * (adv as int),
                cmds@.len() == k,
                forall|i: int| 0 <= i < k ==> (#[trigger] cmds@[i])@ == (DrawCmdView {
                    text: join_range(tokviews, rv[i].0, rv[i].1),
                    x: x as int,
                    y: start_y + i * (adv as int),
                    color: (255u8, 255u8, 255u8),
                }),
            decreases n - k,
        {
            proof {
                assert(-(0x1_0000_0000_0000int) <= (k as int) * (adv as int)
                    <= 0x1_0000_0000_0000int) by (nonlinear_arith)
                    requires
                        -14 <= adv as int <= 0x100_0000,
                        0 <= k as int <= 0x100_0000,
                ;
                assert(((k + 1) as int) * (adv as int) == (k as int) * (adv as int)
                    + adv as int) by (nonlinear_arith);
                assert(rows_view(rows@)[k as int] == (rows@[k as int].0 as int,
                    rows@[k as int].1 as int));
            }
            let row = rows[k];
            let row_str = join_tokens(tokens, row.0, row.1);
            cmds.push(DrawCmd { text: row_str, x, y: yy, color: (255, 255, 255) });
            yy = yy + adv;
            k += 1;
        }
        cmds.push(DrawCmd { text: tokens[0].clone(), x, y: start_y, color });
        proof {
            let lc = line_cmds(
                text@,
                color,
                measure@,
                space,
                avail,
                x as int,
                y as int,
                line_height,
            );
            assert(line_rows(measure@, space, avail) == rv);
            assert(lc.len() == n + 1);
            assert(cmds@.map_values(|c: DrawCmd| c@) =~= lc);
            assert((adv as int) * (n - 1) + adv as int == (adv as int) * (n as int))
                by (nonlinear_arith);
            assert(-(0x1_0000_0000_0000int) <= (adv as int) * (n as int)
                <= 0x1_0000_0000_0000int) by (nonlinear_arith)
                requires
                    -14 <= adv as int <= 0x100_0000,
                    1 <= n as int <= 0x100_0000,
            ;
        }
        (cmds, start_y - adv)
    }
}


/// The bottom-anchored starting cursor of a frame: one line height above
/// the bottom margin, that is `canvas_height - margin - line_height`.
pub open spec fn start_cursor_y(margin: u32, text_height: u32, line_height: u32) -> int {
    margin + text_height - line_height
}

/// The draw commands of a whole frame: each history line laid out in turn,
/// newest first at the bottom, the cursor moving upward line by line.
pub open spec fn render_cmds(
    hist: Seq<LineView>,
    ms: Seq<MeasureView>,
    space: u32,
    avail: u32,
    x: int,
    y: int,
    line_height: u32,
) -> Seq<DrawCmdView>
    decreases hist.len(),
{
    if hist.len() == 0 {
        Seq::empty()
    } else {
        line_cmds(display_text_spec(hist[0]), hist[0].color, ms[0], space, avail, x, y, line_height)
            + render_cmds(
            hist.skip(1),
            ms.skip(1),
            space,
            avail,
            x,
            line_next_y(ms[0], space, avail, y, line_height),
            line_height,
        )
    }
}

impl TextRenderer {
    /// Lays the whole history out bottom-up and returns every draw command
    /// of the frame. `measures[i]` must measure the display text of line `i`:
    /// one width per space-split token, plus the width of the whole text.
    pub fn render(&self, measures: &Vec<LineMeasure>, space: u32, line_height: u32) -> (cmds: Vec<
        DrawCmd,
    >)
        requires
            self.wf(),
            measures@.len() == self.history().len(),
            forall|i: int|
                0 <= i < measures@.len() ==> (#[trigger] measures@[i]).token_widths@.len()
                    == split_spec(display_text_spec(self.history()[i])).len(),
            forall|i: int|
                0 <= i < measures@.len() ==> (#[trigger] measures@[i]).token_widths@.len()
                    <= MAX_TOKENS_PER_LINE,
            line_height <= MAX_LINE_HEIGHT,
        ensures
            cmds@.map_values(|c: DrawCmd| c@) == render_cmds(
                self.history(),
                measures@.map_values(|m: LineMeasure| m@),
                space,
                self.text_width(),
                self.margin() as int,
                start_cursor_y(self.margin(), self.text_height(), line_height),
                line_height,
            ),
    {
        let ghost hist = self.history();
        let ghost ms = measures@.map_values(|m: LineMeasure| m@);
        let x = self.margin as i64;
        let mut y: i64 = self.margin as i64 + self.text_height as i64 - (line_height as i64);
        let ghost y0 = y as int;
        let avail = self.text_width;
        let mut cmds: Vec<DrawCmd> = Vec::new();
        let n = self.len();
        proof {
            assert(ms.len() == measures@.len());
            assert(cmds@.map_values(|c: DrawCmd| c@) + render_cmds(
                hist,
                ms,
                space,
                avail,
                x as int,
                y0,
                line_height,
            ) =~= render_cmds(hist, ms, space, avail, x as int, y0, line_height));
            assert(hist.skip(0) =~= hist);
            assert(ms.skip(0) =~= ms);
        }
        let mut i: usize = 0;
        while i < n
            invariant
                0 <= i <= n,
                n == hist.len(),
                n == ms.len(),
                n <= MAX_LINES,
                hist == self.history(),
                ms == measures@.map_values(|m: LineMeasure| m@),
                measures@.len() == n,
                avail == self.text_width(),
                x == self.margin() as i64,
                0 <= x <= u32::MAX,
                forall|j: int|
                    0 <= j < ms.len() ==> (#[trigger] ms[j]).token_widths.len() == split_spec(
                        display_text_spec(hist[j]),
                    ).len(),
                forall|j: int|
                    0 <= j < ms.len() ==> (#[trigger] ms[j]).token_widths.len()
                        <= MAX_TOKENS_PER_LINE,
                line_height <= MAX_LINE_HEIGHT,
                -0x8_0000_0000i64 <= y0 <= 0x8_0000_0000i64,
                y0 - (i as int) * 0x1_0000_0000_0000 <= y as int <= y0 + (i as int)
                    * 0x1_0000_0000_0000,
                y0 == start_cursor_y(self.margin(), self.text_height(), line_height),
                render_cmds(hist, ms, space, avail, x as int, y0, line_height)
                    =~= cmds@.map_values(|c: DrawCmd| c@) + render_cmds(
                    hist.skip(i as int),
                    ms.skip(i as int),
                    space,
                    avail,
                    x as int,
                    y as int,
                    line_height,
                ),
            decreases n - i,
        {
            let text = self.line_text(i);
            let tokens = split_tokens(text.as_str());
            let line_color = self.line_at(i).color;
            proof {
                assert(ms[i as int] == measures@[i as int]@);
                assert(tokens@.map_values(|t: String| t@) == split_spec(text@));
            }
            let (mut lc, ny) = layout_line(
                &text,
                &tokens,
                &measures[i],
                space,
                avail,
                x,
                y,
                line_height,
                line_color,
            );
            let ghost old_cmds_map = cmds@.map_values(|c: DrawCmd| c@);
            let ghost lc_map = lc@.map_values(|c: DrawCmd| c@);
            cmds.append(&mut lc);
            proof {
                assert(cmds@.map_values(|c: DrawCmd| c@) =~= old_cmds_map + lc_map);
                assert(hist.skip(i as int)[0] == hist[i as int]);
                assert(ms.skip(i as int)[0] == ms[i as int]);
                assert(hist.skip(i as int).skip(1) =~= hist.skip(i as int + 1));
                assert(ms.skip(i as int).skip(1) =~= ms.skip(i as int + 1));
                assert(render_cmds(
                    hist.skip(i as int),
                    ms.skip(i as int),
                    space,
                    avail,
                    x as int,
                    y as int,
                    line_height,
                ) == lc_map + render_cmds(
                    hist.skip(i as int + 1),
                    ms.skip(i as int + 1),
                    space,
                    avail,
                    x as int,
                    ny as int,
                    line_height,
                ));
                assert(render_cmds(hist, ms, space, avail, x as int, y0, line_height)
                    =~= cmds@.map_values(|c: DrawCmd| c@) + render_cmds(
                    hist.skip(i as int + 1),
                    ms.skip(i as int + 1),
                    space,
                    avail,
                    x as int,
                    ny as int,
                    line_height,
                ));
            }
            y = ny;
            i += 1;
        }
        proof {
            assert(hist.skip(n as int) =~= Seq::<LineView>::empty());
            assert(ms.skip(n as int) =~= Seq::<MeasureView>::empty());
            assert(render_cmds(
                hist.skip(n as int),
                ms.skip(n as int),
                space,
                avail,
                x as int,
                y as int,
                line_height,
            ) =~= Seq::<DrawCmdView>::empty());
            assert(cmds@.map_values(|c: DrawCmd| c@) + Seq::<DrawCmdView>::empty() =~= cmds@
                .map_values(|c: DrawCmd| c@));
        }
        cmds
    }
}

} // verus!
