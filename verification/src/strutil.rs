use vstd::prelude::*;
use vstd::string::StrSliceExecFns;
use vstd::string::StringExecFns;

verus! {

/// Index of the first space character at or after `start`, or `s.len()` when
/// there is none.
pub open spec fn first_space(s: Seq<char>, start: int) -> int
    decreases s.len() - start,
{
    if !(0 <= start < s.len()) {
        s.len() as int
    } else if s[start] == ' ' {
        start
    } else {
        first_space(s, start + 1)
    }
}

proof fn lemma_first_space(s: Seq<char>, start: int)
    requires
        0 <= start <= s.len(),
    ensures
        start <= first_space(s, start) <= s.len(),
        first_space(s, start) < s.len() ==> s[first_space(s, start)] == ' ',
        forall|k: int| start <= k < first_space(s, start) ==> s[k] != ' ',
    decreases s.len() - start,
{
    if start < s.len() && s[start] != ' ' {
        lemma_first_space(s, start + 1);
    }
}

/// `first_space(s, start)` is `i` exactly when `s[i]` is a space and nothing
/// before it (from `start` on) is.
proof fn lemma_first_space_at(s: Seq<char>, start: int, i: int)
    requires
        0 <= start <= i < s.len(),
        s[i] == ' ',
        forall|k: int| start <= k < i ==> s[k] != ' ',
    ensures
        first_space(s, start) == i,
    decreases i - start,
{
    if start < i {
        lemma_first_space_at(s, start + 1, i);
    }
}

proof fn lemma_no_space(s: Seq<char>, start: int)
    requires
        0 <= start <= s.len(),
        forall|k: int| start <= k < s.len() ==> s[k] != ' ',
    ensures
        first_space(s, start) == s.len(),
    decreases s.len() - start,
{
    if start < s.len() {
        lemma_no_space(s, start + 1);
    }
}

/// The space-delimited pieces of `s[start..]`: every maximal run between
/// spaces becomes one piece, and consecutive spaces produce empty pieces.
pub open spec fn split_from(s: Seq<char>, start: int) -> Seq<Seq<char>>
    decreases s.len() - start,
{
    if !(0 <= start <= s.len()) {
        Seq::empty()
    } else {
        let i = first_space(s, start);
        if !(start <= i < s.len()) {
            seq![s.subrange(start, s.len() as int)]
        } else {
            seq![s.subrange(start, i)] + split_from(s, i + 1)
        }
    }
}

/// The space-delimited pieces of the whole of `s`; never empty, and empty
/// input yields one empty piece.
pub open spec fn split_spec(s: Seq<char>) -> Seq<Seq<char>> {
    split_from(s, 0)
}

pub proof fn lemma_split_from_len(s: Seq<char>, start: int)
    requires
        0 <= start <= s.len(),
    ensures
        split_from(s, start).len() >= 1,
{
    lemma_first_space(s, start);
}

/// Splits `s` on single space characters, keeping empty tokens, as
/// `split_spec` describes.
pub fn split_tokens(s: &str) -> (tokens: Vec<String>)
    ensures
        tokens@.map_values(|t: String| t@) == split_spec(s@),
{
    let n = s.unicode_len();
    let mut tokens: Vec<String> = Vec::new();
    let mut start: usize = 0;
    let mut i: usize = 0;
    proof {
        assert(tokens@.map_values(|t: String| t@) + split_from(s@, 0) =~= split_from(s@, 0));
    }
    while i < n
        invariant
            0 <= start <= i <= n,
            n == s@.len(),
            forall|k: int| start <= k < i ==> s@[k] != ' ',
            split_spec(s@) =~= tokens@.map_values(|t: String| t@) + split_from(s@, start as int),
        decreases n - i,
    {
        let c = s.get_char(i);
        if c == ' ' {
            proof {
                lemma_first_space_at(s@, start as int, i as int);
            }
            let ghost old_map = tokens@.map_values(|t: String| t@);
            let tok = s.substring_char(start, i).to_owned();
            tokens.push(tok);
            proof {
                assert(tokens@.map_values(|t: String| t@) =~= old_map.push(
                    s@.subrange(start as int, i as int),
                ));
                assert(split_from(s@, start as int) =~= seq![
                    s@.subrange(start as int, i as int),
                ] + split_from(s@, i + 1));
                assert(split_spec(s@) =~= tokens@.map_values(|t: String| t@) + split_from(
                    s@,
                    i + 1,
                ));
            }
            start = i + 1;
        }
        i += 1;
    }
    proof {
        lemma_no_space(s@, start as int);
    }
    let ghost old_map = tokens@.map_values(|t: String| t@);
    let tok = s.substring_char(start, n).to_owned();
    tokens.push(tok);
    proof {
        assert(tokens@.map_values(|t: String| t@) =~= old_map.push(
            s@.subrange(start as int, n as int),
        ));
        assert(split_from(s@, start as int) =~= seq![s@.subrange(start as int, n as int)]);
        assert(tokens@.map_values(|t: String| t@) =~= split_spec(s@));
    }
    tokens
}

/// Tokens `tokens[from..to)` joined with a single space between consecutive
/// tokens.
pub open spec fn join_range(tokens: Seq<Seq<char>>, from: int, to: int) -> Seq<char>
    decreases to - from,
{
    if to <= from {
        Seq::empty()
    } else if to == from + 1 {
        tokens[from]
    } else {
        join_range(tokens, from, to - 1) + seq![' '] + tokens[to - 1]
    }
}

proof fn lemma_join_cons(t: Seq<char>, rest: Seq<Seq<char>>, m: int)
    requires
        1 <= m <= rest.len(),
    ensures
        join_range(seq![t] + rest, 0, m + 1) =~= t + seq![' '] + join_range(rest, 0, m),
    decreases m,
{
    if m == 1 {
        assert((seq![t] + rest)[0] == t);
        assert((seq![t] + rest)[1] == rest[0]);
        assert(join_range(seq![t] + rest, 0, 2) == join_range(seq![t] + rest, 0, 1) + seq![' ']
            + (seq![t] + rest)[1]);
    } else {
        lemma_join_cons(t, rest, m - 1);
        assert((seq![t] + rest)[m] == rest[m - 1]);
    }
}

proof fn lemma_join_split_from(s: Seq<char>, start: int)
    requires
        0 <= start <= s.len(),
    ensures
        join_range(split_from(s, start), 0, split_from(s, start).len() as int) =~= s.subrange(
            start,
            s.len() as int,
        ),
    decreases s.len() - start,
{
    lemma_first_space(s, start);
    let i = first_space(s, start);
    if start <= i < s.len() {
        lemma_join_split_from(s, i + 1);
        let rest = split_from(s, i + 1);
        lemma_split_from_len(s, i + 1);
        lemma_join_cons(s.subrange(start, i), rest, rest.len() as int);
        assert(join_range(split_from(s, start), 0, split_from(s, start).len() as int) =~= s
            .subrange(start, i) + seq![' '] + s.subrange(i + 1, s.len() as int));
        assert(s.subrange(start, i) + seq![' '] + s.subrange(i + 1, s.len() as int) =~= s.subrange(
            start,
            s.len() as int,
        ));
    }
}

/// Splitting on spaces and joining the pieces back with single spaces
/// restores the original string: the wrap never loses or reorders text.
pub proof fn lemma_join_split(s: Seq<char>)
    ensures
        join_range(split_spec(s), 0, split_spec(s).len() as int) =~= s,
{
    lemma_join_split_from(s, 0);
    assert(s.subrange(0, s.len() as int) =~= s);
}

/// Joins `tokens[from..to)` with a single space between consecutive tokens.
pub fn join_tokens(tokens: &Vec<String>, from: usize, to: usize) -> (r: String)
    requires
        from <= to <= tokens@.len(),
    ensures
        r@ == join_range(tokens@.map_values(|t: String| t@), from as int, to as int),
{
    let ghost views = tokens@.map_values(|t: String| t@);
    let mut r = String::new();
    let mut k = from;
    while k < to
        invariant
            from <= k <= to <= tokens@.len(),
            views == tokens@.map_values(|t: String| t@),
            r@ =~= join_range(views, from as int, k as int),
        decreases to - k,
    {
        if k > from {
            r.append(" ");
            proof {
                reveal_strlit(" ");
                assert(" "@ =~= seq![' ']);
            }
        }
        r.append(tokens[k].as_str());
        proof {
            assert(views[k as int] == tokens@[k as int]@);
            if k == from {
                assert(join_range(views, from as int, k + 1) == views[from as int]);
                assert(r@ =~= join_range(views, from as int, k + 1));
            } else {
                assert(join_range(views, from as int, k + 1) == join_range(
                    views,
                    from as int,
                    k as int,
                ) + seq![' '] + views[k as int]);
                assert(r@ =~= join_range(views, from as int, k + 1));
            }
        }
        k += 1;
    }
    r
}

/// The decimal digit characters of `n`, most significant first.
pub open spec fn decimal_digits(n: int) -> Seq<char>
    decreases n,
{
    if n < 10 {
        seq![digit_char(n)]
    } else {
        decimal_digits(n / 10).push(digit_char(n % 10))
    }
}

pub open spec fn digit_char(d: int) -> char {
    if d == 0 {
        '0'
    } else if d == 1 {
        '1'
    } else if d == 2 {
        '2'
    } else if d == 3 {
        '3'
    } else if d == 4 {
        '4'
    } else if d == 5 {
        '5'
    } else if d == 6 {
        '6'
    } else if d == 7 {
        '7'
    } else if d == 8 {
        '8'
    } else {
        '9'
    }
}

proof fn lemma_digit_char(d: int)
    requires
        0 <= d < 10,
    ensures
        "0123456789"@[d] == digit_char(d),
{
    reveal_strlit("0123456789");
}

/// Appends the decimal digits of `n` to `out`.
pub fn append_decimal(out: &mut String, n: u32)
    ensures
        final (out)@ == old(out)@ + decimal_digits(n as int),
    decreases n,
{
    if n >= 10 {
        append_decimal(out, n / 10);
    }
    let d = (n % 10) as usize;
    let digits = "0123456789";
    proof {
        reveal_strlit("0123456789");
        lemma_digit_char(d as int);
    }
    let ds = digits.substring_char(d, d + 1);
    out.append(ds);
    proof {
        assert(ds@ =~= seq![digit_char(d as int)]);
        if n < 10 {
            assert(decimal_digits(n as int) =~= seq![digit_char(n as int)]);
            assert(out@ =~= old(out)@ + decimal_digits(n as int));
        } else {
            assert(decimal_digits(n as int) =~= decimal_digits(n as int / 10).push(
                digit_char(n as int % 10),
            ));
            assert(out@ =~= old(out)@ + decimal_digits(n as int));
        }
    }
}

} // verus!
