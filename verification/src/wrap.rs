use vstd::prelude::*;

verus! {

/// Width in pixels of tokens `widths[i..j)` laid out on one row with a single
/// space (of width `space`) between consecutive tokens.
pub open spec fn seg_width(widths: Seq<u32>, space: u32, i: int, j: int) -> int
    decreases j - i,
{
    if j <= i {
        0
    } else if j == i + 1 {
        widths[i] as int
    } else {
        seg_width(widths, space, i, j - 1) + space + widths[j - 1]
    }
}

/// The greedy end of the row that starts at token `start`, explored up to
/// token `j`: tokens keep being added while the row still fits in `avail`
/// with the next one appended.
pub open spec fn row_end(widths: Seq<u32>, space: u32, avail: u32, start: int, j: int) -> int
    decreases widths.len() - j,
{
    if !(start < j < widths.len()) {
        j
    } else if seg_width(widths, space, start, j + 1) <= avail {
        row_end(widths, space, avail, start, j + 1)
    } else {
        j
    }
}

/// The greedy word-wrap of tokens `widths[start..]`: one `(begin, end)` pair
/// of token indices per produced row, in order.
pub open spec fn wrap_rows(widths: Seq<u32>, space: u32, avail: u32, start: int) -> Seq<(int, int)>
    decreases widths.len() - start,
{
    if !(0 <= start < widths.len()) {
        Seq::empty()
    } else {
        let end = row_end(widths, space, avail, start, start + 1);
        if start < end <= widths.len() {
            seq![(start, end)] + wrap_rows(widths, space, avail, end)
        } else {
            Seq::empty()
        }
    }
}

proof fn lemma_row_end_bounds(widths: Seq<u32>, space: u32, avail: u32, start: int, j: int)
    requires
        start < j <= widths.len(),
    ensures
        j <= row_end(widths, space, avail, start, j) <= widths.len(),
    decreases widths.len() - j,
{
    if start < j < widths.len() && seg_width(widths, space, start, j + 1) <= avail {
        lemma_row_end_bounds(widths, space, avail, start, j + 1);
    }
}

/// A row that the greedy exploration closed either holds a single token or
/// fits in `avail`.
proof fn lemma_row_end_fits(widths: Seq<u32>, space: u32, avail: u32, start: int, j: int)
    requires
        0 <= start < j <= widths.len(),
        j == start + 1 || seg_width(widths, space, start, j) <= avail,
    ensures
        ({
            let e = row_end(widths, space, avail, start, j);
            e == start + 1 || seg_width(widths, space, start, e) <= avail
        }),
    decreases widths.len() - j,
{
    if start < j < widths.len() && seg_width(widths, space, start, j + 1) <= avail {
        lemma_row_end_fits(widths, space, avail, start, j + 1);
    }
}

/// A row that the greedy exploration closed before the last token is maximal:
/// appending the next token would exceed `avail`.
proof fn lemma_row_end_maximal(widths: Seq<u32>, space: u32, avail: u32, start: int, j: int)
    requires
        0 <= start < j <= widths.len(),
    ensures
        ({
            let e = row_end(widths, space, avail, start, j);
            e < widths.len() ==> seg_width(widths, space, start, e + 1) > avail
        }),
    decreases widths.len() - j,
{
    if start < j < widths.len() && seg_width(widths, space, start, j + 1) <= avail {
        lemma_row_end_maximal(widths, space, avail, start, j + 1);
    }
}

/// The produced rows tile the token indices `start..widths.len()` exactly:
/// the first row begins at `start`, each row begins where the previous one
/// ended, every row is nonempty, and the last row ends at `widths.len()`.
pub proof fn lemma_wrap_rows_tile(widths: Seq<u32>, space: u32, avail: u32, start: int)
    requires
        0 <= start < widths.len(),
    ensures
        ({
            let rows = wrap_rows(widths, space, avail, start);
            &&& rows.len() >= 1
            &&& rows[0].0 == start
            &&& rows[rows.len() - 1].1 == widths.len()
            &&& forall|k: int| 0 <= k < rows.len() ==> (#[trigger] rows[k]).0 < rows[k].1 <= widths.len()
            &&& forall|k: int| 0 <= k < rows.len() - 1 ==> #[trigger] rows[k].1 == rows[k + 1].0
        }),
    decreases widths.len() - start,
{
    lemma_row_end_bounds(widths, space, avail, start, start + 1);
    let end = row_end(widths, space, avail, start, start + 1);
    let rows = wrap_rows(widths, space, avail, start);
    if end < widths.len() {
        lemma_wrap_rows_tile(widths, space, avail, end);
        let rest = wrap_rows(widths, space, avail, end);
        assert(rows == seq![(start, end)] + rest);
        assert(rows[rows.len() - 1] == rest[rest.len() - 1]);
        assert(forall|k: int| 1 <= k < rows.len() ==> #[trigger] rows[k] == rest[k - 1]);
    } else {
        assert(rows == seq![(start, end)] + wrap_rows(widths, space, avail, end));
        assert(wrap_rows(widths, space, avail, end) =~= Seq::<(int, int)>::empty());
        assert(rows =~= seq![(start, end)]);
    }
}

/// No produced row is wider than `avail`, except a row holding a single token
/// that is by itself wider than `avail`.
pub proof fn lemma_wrap_rows_fit(widths: Seq<u32>, space: u32, avail: u32, start: int, k: int)
    requires
        0 <= start < widths.len(),
        0 <= k < wrap_rows(widths, space, avail, start).len(),
    ensures
        ({
            let row = wrap_rows(widths, space, avail, start)[k];
            row.1 == row.0 + 1 || seg_width(widths, space, row.0, row.1) <= avail
        }),
    decreases widths.len() - start,
{
    lemma_row_end_bounds(widths, space, avail, start, start + 1);
    let end = row_end(widths, space, avail, start, start + 1);
    if k == 0 {
        lemma_row_end_fits(widths, space, avail, start, start + 1);
    } else {
        if end >= widths.len() {
            assert(wrap_rows(widths, space, avail, end) =~= Seq::<(int, int)>::empty());
            assert(wrap_rows(widths, space, avail, start) =~= seq![(start, end)]);
            assert(false);
        }
        lemma_wrap_rows_fit(widths, space, avail, end, k - 1);
        let rest = wrap_rows(widths, space, avail, end);
        assert(wrap_rows(widths, space, avail, start)[k] == rest[k - 1]);
    }
}

/// Every produced row is greedy-maximal: a row that ends before the last
/// token could not have taken the next token without exceeding `avail`.
pub proof fn lemma_wrap_rows_maximal(widths: Seq<u32>, space: u32, avail: u32, start: int, k: int)
    requires
        0 <= start < widths.len(),
        0 <= k < wrap_rows(widths, space, avail, start).len(),
    ensures
        ({
            let row = wrap_rows(widths, space, avail, start)[k];
            row.1 < widths.len() ==> seg_width(widths, space, row.0, row.1 + 1) > avail
        }),
    decreases widths.len() - start,
{
    lemma_row_end_bounds(widths, space, avail, start, start + 1);
    let end = row_end(widths, space, avail, start, start + 1);
    if k == 0 {
        lemma_row_end_maximal(widths, space, avail, start, start + 1);
    } else {
        if end >= widths.len() {
            assert(wrap_rows(widths, space, avail, end) =~= Seq::<(int, int)>::empty());
            assert(wrap_rows(widths, space, avail, start) =~= seq![(start, end)]);
            assert(false);
        }
        lemma_wrap_rows_maximal(widths, space, avail, end, k - 1);
        let rest = wrap_rows(widths, space, avail, end);
        assert(wrap_rows(widths, space, avail, start)[k] == rest[k - 1]);
    }
}

proof fn lemma_seg_width_monotonic(widths: Seq<u32>, space: u32, i: int, j: int, k: int)
    requires
        i <= j <= k <= widths.len(),
    ensures
        seg_width(widths, space, i, j) <= seg_width(widths, space, i, k),
    decreases k - j,
{
    if j < k {
        lemma_seg_width_monotonic(widths, space, i, j, k - 1);
    }
}

/// A token sequence whose total single-row width already fits in `avail`
/// wraps to exactly one row holding every token.
pub proof fn lemma_wrap_fits(widths: Seq<u32>, space: u32, avail: u32)
    requires
        widths.len() >= 1,
        seg_width(widths, space, 0, widths.len() as int) <= avail,
    ensures
        wrap_rows(widths, space, avail, 0) =~= seq![(0int, widths.len() as int)],
{
    lemma_row_end_full(widths, space, avail, 1);
    assert(row_end(widths, space, avail, 0, 1) == widths.len());
    assert(wrap_rows(widths, space, avail, 0) == seq![(0int, widths.len() as int)] + wrap_rows(
        widths,
        space,
        avail,
        widths.len() as int,
    ));
    assert(wrap_rows(widths, space, avail, widths.len() as int) =~= Seq::<(int, int)>::empty());
}

proof fn lemma_row_end_full(widths: Seq<u32>, space: u32, avail: u32, j: int)
    requires
        0 < j <= widths.len(),
        seg_width(widths, space, 0, widths.len() as int) <= avail,
    ensures
        row_end(widths, space, avail, 0, j) == widths.len(),
    decreases widths.len() - j,
{
    if j < widths.len() {
        lemma_seg_width_monotonic(widths, space, 0, j + 1, widths.len() as int);
        lemma_row_end_full(widths, space, avail, j + 1);
    }
}

/// There are never more rows than tokens: every row holds at least one.
pub proof fn lemma_wrap_rows_count(widths: Seq<u32>, space: u32, avail: u32, start: int)
    requires
        0 <= start <= widths.len(),
    ensures
        wrap_rows(widths, space, avail, start).len() <= widths.len() - start,
    decreases widths.len() - start,
{
    if start < widths.len() {
        lemma_row_end_bounds(widths, space, avail, start, start + 1);
        let end = row_end(widths, space, avail, start, start + 1);
        lemma_wrap_rows_count(widths, space, avail, end);
    }
}

/// The rows of token indices as mathematical pairs.
pub open spec fn rows_view(rows: Seq<(usize, usize)>) -> Seq<(int, int)> {
    rows.map_values(|r: (usize, usize)| (r.0 as int, r.1 as int))
}

/// Greedy word-wrap: groups tokens `0..widths.len()` into the rows that
/// `wrap_rows` describes, given per-token pixel widths, the width of a space,
/// and the available row width.
pub fn wrap_tokens(widths: &Vec<u32>, space: u32, avail: u32) -> (rows: Vec<(usize, usize)>)
    ensures
        rows_view(rows@) == wrap_rows(widths@, space, avail, 0),
{
    let n = widths.len();
    let mut rows: Vec<(usize, usize)> = Vec::new();
    if n == 0 {
        proof {
            assert(rows_view(rows@) =~= wrap_rows(widths@, space, avail, 0));
        }
        return rows;
    }
    let mut start: usize = 0;
    let mut j: usize = 1;
    let mut cur: u64 = widths[0] as u64;
    while j < n
        invariant
            0 <= start < j <= n,
            n == widths@.len(),
            cur == seg_width(widths@, space, start as int, j as int),
            cur <= u32::MAX,
            row_end(widths@, space, avail, start as int, start as int + 1) == row_end(
                widths@,
                space,
                avail,
                start as int,
                j as int,
            ),
            wrap_rows(widths@, space, avail, 0) =~= rows_view(rows@) + wrap_rows(
                widths@,
                space,
                avail,
                start as int,
            ),
        decreases n - j,
    {
        let w = widths[j];
        if cur + (space as u64) + (w as u64) > avail as u64 {
            proof {
                assert(seg_width(widths@, space, start as int, j as int + 1) == cur + space + w);
                assert(row_end(widths@, space, avail, start as int, j as int) == j as int);
                let rest = wrap_rows(widths@, space, avail, j as int);
                assert(wrap_rows(widths@, space, avail, start as int) == seq![
                    (start as int, j as int),
                ] + rest);
            }
            let ghost old_map = rows_view(rows@);
            rows.push((start, j));
            proof {
                assert(rows_view(rows@) =~= old_map.push((start as int, j as int)));
                assert(wrap_rows(widths@, space, avail, 0) =~= rows_view(rows@) + wrap_rows(
                    widths@,
                    space,
                    avail,
                    j as int,
                ));
            }
            start = j;
            cur = w as u64;
        } else {
            proof {
                assert(seg_width(widths@, space, start as int, j as int + 1) == cur + space + w);
                assert(row_end(widths@, space, avail, start as int, j as int) == row_end(
                    widths@,
                    space,
                    avail,
                    start as int,
                    j as int + 1,
                ));
            }
            cur = cur + (space as u64) + (w as u64);
        }
        j += 1;
    }
    proof {
        assert(row_end(widths@, space, avail, start as int, n as int) == n as int);
        assert(wrap_rows(widths@, space, avail, start as int) == seq![(start as int, n as int)]
            + wrap_rows(widths@, space, avail, n as int));
        assert(wrap_rows(widths@, space, avail, n as int) =~= Seq::<(int, int)>::empty());
    }
    let ghost old_map = rows_view(rows@);
    rows.push((start, n));
    proof {
        assert(rows_view(rows@) =~= old_map.push((start as int, n as int)));
        assert(rows_view(rows@) =~= wrap_rows(widths@, space, avail, 0));
    }
    rows
}

} // verus!
