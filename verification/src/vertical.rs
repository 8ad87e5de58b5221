//! Moving the cursor up and down a line while keeping a horizontal position.
//!
//! A line is laid out grapheme by grapheme: an ordinary grapheme is one
//! column wide, and a tab at column `x` advances to `x + (x / tab + 1) * tab`.
//! The cursor keeps the column it had (counting a tab as 8 and any other
//! grapheme as 1 when it has none saved yet) and lands on the grapheme
//! boundary of the other line closest to that column, the left one on a tie.
use vstd::prelude::*;
use ropey::Rope;
use crate::buffer::{Buffer, SelectionMap, map_selections, lemma_sels_of_within, lemma_sels_within_set};
use crate::graphemes::{gboundary, lemma_gboundary_step, lemma_gboundary_end, lemma_gboundary_mono, segmented};
use crate::motion::sel_within;
use crate::rope::{
    rope_text, rope_len_chars, rope_len_lines, rope_char_to_line, rope_line_to_char, rope_char,
    rope_slice_string, grapheme_lengths, grapheme_lens, sum_lens, line_of, num_lines, line_start,
    lemma_line_start_is, lemma_line_of_bound, lemma_line_start_before, lemma_line_of_mono,
    lemma_line_starts_increase, is_line_start, is_line_end,
};
use crate::selection::Selection;
use crate::views::{ViewId, ViewSels, sels_of, set_sels, lemma_set_sels, lemma_set_sels_twice};
use crate::buffer::{snap_view, snap_sel, on_boundaries, lemma_on_boundaries_set};

verus! {

/// Grapheme `j` of `s` (split as `lens`) is a lone tab.
pub open spec fn is_tab_at(s: Seq<char>, lens: Seq<usize>, j: int) -> bool {
    lens[j] == 1 && s[gboundary(lens, j)] == '\t'
}

/// The width of the first `j` graphemes counting a tab as 8 and any other
/// grapheme as 1.
pub open spec fn home_width(s: Seq<char>, lens: Seq<usize>, j: int) -> int
    decreases j,
{
    if j <= 0 {
        0
    } else {
        home_width(s, lens, j - 1) + if is_tab_at(s, lens, j - 1) {
            8int
        } else {
            1int
        }
    }
}

/// The column after a grapheme that starts at column `x`.
pub open spec fn advance(x: int, tab: int, is_tab: bool) -> int {
    if is_tab {
        x + ((x / tab) + 1) * tab
    } else {
        x + 1
    }
}

/// The column where grapheme `j` starts.
pub open spec fn col_x(s: Seq<char>, lens: Seq<usize>, tab: int, j: int) -> int
    decreases j,
{
    if j <= 0 {
        0
    } else {
        advance(col_x(s, lens, tab, j - 1), tab, is_tab_at(s, lens, j - 1))
    }
}

/// The first boundary from `j` on whose column is past `horiz`
/// (`lens.len() + 1` if there is none).
pub open spec fn first_over(s: Seq<char>, lens: Seq<usize>, tab: int, horiz: int, j: int) -> int
    decreases lens.len() + 1 - j,
{
    if j > lens.len() || j < 0 {
        lens.len() + 1int
    } else if col_x(s, lens, tab, j) > horiz {
        j
    } else {
        first_over(s, lens, tab, horiz, j + 1)
    }
}

/// The grapheme boundary of `s` closest to column `horiz`: of the last
/// boundary at or before it and the first one past it, the nearer, and the
/// earlier one on a tie.
pub open spec fn closest(s: Seq<char>, tab: int, horiz: int) -> int {
    let lens = grapheme_lens(s);
    let j = first_over(s, lens, tab, horiz, 0);
    if j > lens.len() {
        gboundary(lens, lens.len() as int)
    } else if horiz - col_x(s, lens, tab, j - 1) <= col_x(s, lens, tab, j) - horiz {
        gboundary(lens, j - 1)
    } else {
        gboundary(lens, j)
    }
}

/// The width from the start of the line of `c` to `c`.
pub open spec fn width_before(t: Seq<char>, c: int) -> int {
    let home = line_start(t, line_of(t, c) as int);
    let s = t.subrange(home, c);
    home_width(s, grapheme_lens(s), grapheme_lens(s).len() as int)
}

/// Moving up from `c` with saved column `horiz`: the new position and the
/// column to save.
pub open spec fn up_from(t: Seq<char>, c: int, horiz: Option<usize>, tab: int) -> (int, Option<usize>) {
    let line = line_of(t, c);
    let home = line_start(t, line as int);
    let h = match horiz {
        Some(h) => h as int,
        None => width_before(t, c),
    };
    if c == 0 {
        (0, Some(0usize))
    } else if line == 0 {
        (0, Some(h as usize))
    } else {
        let prev_home = line_start(t, line - 1);
        (prev_home + closest(t.subrange(prev_home, home - 1), tab, h), Some(h as usize))
    }
}

/// Moving down from `c` with saved column `horiz`: the new position and the
/// column to save.
pub open spec fn down_from(t: Seq<char>, c: int, horiz: Option<usize>, tab: int) -> (int, Option<usize>) {
    let line = line_of(t, c);
    let cur = width_before(t, c);
    let h = match horiz {
        Some(h) => h as int,
        None => cur,
    };
    if c == t.len() {
        (c, Some(cur as usize))
    } else if line == num_lines(t) - 1 {
        (t.len() as int, Some(h as usize))
    } else {
        let next_home = line_start(t, line + 1int);
        let next_end = if line + 1 == num_lines(t) - 1 {
            t.len() as int
        } else {
            line_start(t, line + 2int) - 1
        };
        (next_home + closest(t.subrange(next_home, next_end), tab, h), Some(h as usize))
    }
}

/// What moving up or down (and extending the selection or not) makes of `s`.
pub open spec fn sel_vertical(t: Seq<char>, s: Selection, down: bool, extend: bool, tab: int) -> Selection {
    let (p, h) = if down {
        down_from(t, s.end as int, s.horiz, tab)
    } else {
        up_from(t, s.end as int, s.horiz, tab)
    };
    Selection {
        start: if extend {
            s.start
        } else {
            p as usize
        },
        end: p as usize,
        horiz: h,
    }
}

proof fn lemma_home_width_bound(s: Seq<char>, lens: Seq<usize>, j: int)
    requires
        0 <= j,
    ensures
        0 <= home_width(s, lens, j) <= 8 * j,
    decreases j,
{
    if j > 0 {
        lemma_home_width_bound(s, lens, j - 1);
    }
}

proof fn lemma_col_x_grows(s: Seq<char>, lens: Seq<usize>, tab: int, j: int)
    requires
        tab > 0,
        0 <= j,
    ensures
        col_x(s, lens, tab, j) >= j,
        col_x(s, lens, tab, j + 1) > col_x(s, lens, tab, j),
    decreases j,
{
    if j > 0 {
        lemma_col_x_grows(s, lens, tab, j - 1);
    }
    let x = col_x(s, lens, tab, j);
    if is_tab_at(s, lens, j) {
        assert(x / tab >= 0) by (nonlinear_arith)
            requires
                x >= 0,
                tab > 0,
        ;
        assert(((x / tab) + 1) * tab >= tab) by (nonlinear_arith)
            requires
                x / tab >= 0,
                tab > 0,
        ;
    }
}

proof fn lemma_first_over_found(s: Seq<char>, lens: Seq<usize>, tab: int, horiz: int, i: int, j: int)
    requires
        0 <= i <= j <= lens.len(),
        forall|k: int| i <= k < j ==> col_x(s, lens, tab, k) <= horiz,
        col_x(s, lens, tab, j) > horiz,
    ensures
        first_over(s, lens, tab, horiz, i) == j,
    decreases j - i,
{
    if i < j {
        lemma_first_over_found(s, lens, tab, horiz, i + 1, j);
    }
}

proof fn lemma_first_over_none(s: Seq<char>, lens: Seq<usize>, tab: int, horiz: int, i: int)
    requires
        0 <= i <= lens.len() + 1,
        forall|k: int| i <= k <= lens.len() ==> col_x(s, lens, tab, k) <= horiz,
    ensures
        first_over(s, lens, tab, horiz, i) == lens.len() + 1,
    decreases lens.len() + 1 - i,
{
    if i <= lens.len() {
        lemma_first_over_none(s, lens, tab, horiz, i + 1);
    }
}

/// Where the text of line `l` of `t` ends: before the line break that ends
/// it, or at the end of the text for the last line.
pub open spec fn line_content_end(t: Seq<char>, l: int) -> int {
    if l == num_lines(t) - 1 {
        t.len() as int
    } else {
        line_start(t, l + 1) - 1
    }
}

/// The chars of line `l` of `t`, without its line break.
pub open spec fn line_text(t: Seq<char>, l: int) -> Seq<char> {
    t.subrange(line_start(t, l), line_content_end(t, l))
}

/// Some position up to `n` starts line `l`, for each line up to that of
/// `n`.
proof fn lemma_line_start_at(t: Seq<char>, n: int, l: int) -> (p: int)
    requires
        0 <= n <= t.len(),
        0 <= l <= line_of(t, n),
    ensures
        is_line_start(t, l, p),
        p <= n,
    decreases n,
{
    if n == 0 {
        0
    } else if l <= line_of(t, n - 1) {
        lemma_line_start_at(t, n - 1, l)
    } else {
        n
    }
}

/// Every line of `t` has its start.
pub proof fn lemma_line_start_exists(t: Seq<char>, l: int)
    requires
        0 <= l < num_lines(t),
    ensures
        is_line_start(t, l, line_start(t, l)),
{
    let p = lemma_line_start_at(t, t.len() as int, l);
    lemma_line_start_is(t, l, p);
}

/// The first boundary past a column comes at or after where the search
/// starts, and is past the column unless there is none.
proof fn lemma_first_over_range(s: Seq<char>, lens: Seq<usize>, tab: int, horiz: int, i: int)
    requires
        0 <= i <= lens.len() + 1,
    ensures
        i <= first_over(s, lens, tab, horiz, i) <= lens.len() + 1,
        first_over(s, lens, tab, horiz, i) <= lens.len() ==> col_x(
            s,
            lens,
            tab,
            first_over(s, lens, tab, horiz, i),
        ) > horiz,
    decreases lens.len() + 1 - i,
{
    if i <= lens.len() && col_x(s, lens, tab, i) <= horiz {
        lemma_first_over_range(s, lens, tab, horiz, i + 1);
    }
}

/// The boundary closest to a column lies within the text.
pub proof fn lemma_closest_within(s: Seq<char>, tab: int, horiz: int)
    requires
        segmented(s),
        horiz >= 0,
    ensures
        0 <= closest(s, tab, horiz) <= s.len(),
{
    let lens = grapheme_lens(s);
    lemma_first_over_range(s, lens, tab, horiz, 0);
    lemma_gboundary_end(lens);
    let j = first_over(s, lens, tab, horiz, 0);
    if j <= lens.len() {
        assert(j >= 1);
        lemma_gboundary_mono(lens, j - 1, lens.len() as int);
        lemma_gboundary_mono(lens, j, lens.len() as int);
    }
}

/// Moving down from a position before the end of the text on a line that is
/// not the last lands on the next line, between its start and the line
/// break that ends it (the end of the text for the last line).
pub proof fn lemma_down_next_line(t: Seq<char>, c: int, horiz: Option<usize>, tab: int)
    requires
        0 <= c < t.len(),
        line_of(t, c) + 1 < num_lines(t),
        segmented(line_text(t, line_of(t, c) + 1int)),
    ensures
        line_of(t, down_from(t, c, horiz, tab).0) == line_of(t, c) + 1,
        line_start(t, line_of(t, c) + 1int) <= down_from(t, c, horiz, tab).0 <= line_content_end(
            t,
            line_of(t, c) + 1int,
        ),
{
    let l = line_of(t, c) as int;
    lemma_line_start_exists(t, l + 1);
    let home = line_start(t, l + 1);
    let end = line_content_end(t, l + 1);
    if l + 1 < num_lines(t) - 1 {
        lemma_line_start_exists(t, l + 2);
        let q = line_start(t, l + 2);
        lemma_line_starts_increase(t, l + 1, home, q);
        assert(is_line_end(t, q));
        assert(line_of(t, q) == line_of(t, q - 1) + 1);
        assert(line_of(t, end) == l + 1);
    } else {
        lemma_line_of_bound(t, home);
        assert(line_of(t, end) == l + 1);
    }
    let s = t.subrange(home, end);
    assert(home <= end) by {
        if end < home {
            lemma_line_of_mono(t, end, home);
            if l + 1 < num_lines(t) - 1 {
                lemma_line_of_mono(t, end, home - 1);
            }
        }
    }
    let h = match horiz {
        Some(h) => h as int,
        None => width_before(t, c),
    };
    let cs = t.subrange(line_start(t, l), c);
    lemma_home_width_bound(cs, grapheme_lens(cs), grapheme_lens(cs).len() as int);
    lemma_closest_within(s, tab, h);
    let r = down_from(t, c, horiz, tab).0;
    assert(r == home + closest(s, tab, h));
    lemma_line_of_mono(t, home, r);
    lemma_line_of_mono(t, r, end);
}

/// Moving up from a position on a line that is not the first lands on the
/// line before, between its start and the line break that ends it.
pub proof fn lemma_up_prev_line(t: Seq<char>, c: int, horiz: Option<usize>, tab: int)
    requires
        0 <= c <= t.len(),
        line_of(t, c) > 0,
        segmented(line_text(t, line_of(t, c) - 1int)),
    ensures
        line_of(t, up_from(t, c, horiz, tab).0) == line_of(t, c) - 1,
        line_start(t, line_of(t, c) - 1int) <= up_from(t, c, horiz, tab).0 <= line_content_end(
            t,
            line_of(t, c) - 1int,
        ),
{
    let l = line_of(t, c) as int;
    lemma_line_of_bound(t, c);
    lemma_line_start_exists(t, l - 1);
    lemma_line_start_exists(t, l);
    let prev_home = line_start(t, l - 1);
    let home = line_start(t, l);
    lemma_line_starts_increase(t, l - 1, prev_home, home);
    assert(is_line_end(t, home));
    assert(line_of(t, home) == line_of(t, home - 1) + 1);
    let end = line_content_end(t, l - 1);
    assert(end == home - 1);
    let s = t.subrange(prev_home, end);
    let h = match horiz {
        Some(h) => h as int,
        None => width_before(t, c),
    };
    let cs = t.subrange(home, c);
    lemma_home_width_bound(cs, grapheme_lens(cs), grapheme_lens(cs).len() as int);
    lemma_closest_within(s, tab, h);
    assert(c != 0);
    let r = up_from(t, c, horiz, tab).0;
    assert(r == prev_home + closest(s, tab, h));
    lemma_line_of_mono(t, prev_home, r);
    lemma_line_of_mono(t, r, end);
}

/// The width of the graphemes of `rope`'s chars `a..b`, a tab counting 8.
fn width_between(rope: &Rope, a: usize, b: usize) -> (w: usize)
    requires
        a <= b <= rope_text(*rope).len(),
        8 * rope_text(*rope).len() <= usize::MAX,
    ensures
        w == home_width(
            rope_text(*rope).subrange(a as int, b as int),
            grapheme_lens(rope_text(*rope).subrange(a as int, b as int)),
            grapheme_lens(rope_text(*rope).subrange(a as int, b as int)).len() as int,
        ),
{
    let ghost t = rope_text(*rope);
    let ghost s = t.subrange(a as int, b as int);
    let st = rope_slice_string(rope, a, b);
    let lens = grapheme_lengths(st.as_str());
    let mut w: usize = 0;
    let mut pos: usize = a;
    let mut j: usize = 0;
    proof {
        assert(lens@.take(0) =~= Seq::<usize>::empty());
        lemma_gboundary_end(lens@);
        lemma_gboundary_mono(lens@, 0, lens@.len() as int);
    }
    while j < lens.len()
        invariant
            t == rope_text(*rope),
            s == t.subrange(a as int, b as int),
            a <= b <= t.len(),
            8 * t.len() <= usize::MAX,
            lens@ == grapheme_lens(s),
            forall|k: int| 0 <= k < lens@.len() ==> lens@[k] >= 1,
            gboundary(lens@, lens@.len() as int) == s.len(),
            j <= lens@.len(),
            lens@.len() <= s.len(),
            pos == a + gboundary(lens@, j as int),
            w == home_width(s, lens@, j as int),
        decreases lens@.len() - j,
    {
        proof {
            lemma_gboundary_step(lens@, j as int);
            lemma_gboundary_mono(lens@, j + 1, lens@.len() as int);
            lemma_home_width_bound(s, lens@, j as int);
        }
        let len_j = lens[j];
        let is_tab = len_j == 1 && rope_char(rope, pos) == '\t';
        if is_tab {
            w = w + 8;
        } else {
            w = w + 1;
        }
        pos = pos + len_j;
        j = j + 1;
    }
    w
}

/// The boundary of `rope`'s chars `a..b` closest to column `horiz`, as a
/// char index of the rope.
fn closest_in(rope: &Rope, a: usize, b: usize, horiz: usize, tab: usize) -> (p: usize)
    requires
        a <= b <= rope_text(*rope).len(),
        tab > 0,
    ensures
        p == a + closest(rope_text(*rope).subrange(a as int, b as int), tab as int, horiz as int),
        a <= p <= b,
        segmented(rope_text(*rope).subrange(a as int, b as int)),
{
    let ghost t = rope_text(*rope);
    let ghost s = t.subrange(a as int, b as int);
    let st = rope_slice_string(rope, a, b);
    let lens = grapheme_lengths(st.as_str());
    let ghost tb = tab as int;
    let h: u128 = horiz as u128;
    let tb128: u128 = tab as u128;
    let mut final_char: usize = a;
    let mut x: u128 = 0;
    let mut left: (usize, u128) = (a, 0);
    let mut j: usize = 0;
    proof {
        assert(lens@.take(0) =~= Seq::<usize>::empty());
        lemma_gboundary_end(lens@);
        lemma_gboundary_mono(lens@, 0, lens@.len() as int);
        assert(lens@.take(lens@.len() as int) =~= lens@);
    }
    while j < lens.len() && x <= h
        invariant
            t == rope_text(*rope),
            s == t.subrange(a as int, b as int),
            a <= b <= t.len(),
            tab > 0,
            tb == tab as int,
            h == horiz,
            tb128 == tab,
            lens@ == grapheme_lens(s),
            forall|k: int| 0 <= k < lens@.len() ==> lens@[k] >= 1,
            gboundary(lens@, lens@.len() as int) == s.len(),
            j <= lens@.len(),
            final_char == a + gboundary(lens@, j as int),
            x == col_x(s, lens@, tb, j as int),
            forall|k: int| 0 <= k < j ==> col_x(s, lens@, tb, k) <= horiz,
            j > 0 ==> left.0 == a + gboundary(lens@, j - 1),
            j > 0 ==> left.1 == col_x(s, lens@, tb, j - 1),
        decreases lens@.len() - j,
    {
        proof {
            lemma_gboundary_step(lens@, j as int);
            lemma_gboundary_mono(lens@, j + 1, lens@.len() as int);
            lemma_col_x_grows(s, lens@, tb, j as int);
        }
        left = (final_char, x);
        let len_j = lens[j];
        let is_tab = len_j == 1 && rope_char(rope, final_char) == '\t';
        assert(is_tab == is_tab_at(s, lens@, j as int));
        if is_tab {
            assert(x / tb128 <= x) by (nonlinear_arith)
                requires
                    tb128 > 0,
            ;
            assert(((x / tb128) + 1) * tb128 <= x + tb128) by (nonlinear_arith)
                requires
                    tb128 > 0,
            ;
            x = x + ((x / tb128) + 1) * tb128;
        } else {
            x = x + 1;
        }
        final_char = final_char + len_j;
        j = j + 1;
    }
    proof {
        lemma_gboundary_mono(lens@, j as int, lens@.len() as int);
        lemma_gboundary_mono(lens@, 0, j as int);
    }
    if x <= h {
        proof {
            assert(j == lens@.len());
            assert forall|k: int| 0 <= k <= lens@.len() implies col_x(s, lens@, tb, k) <= horiz by {
                if k == j {
                }
            }
            lemma_first_over_none(s, lens@, tb, horiz as int, 0);
        }
        final_char
    } else {
        proof {
            assert(j > 0);
            lemma_gboundary_mono(lens@, j - 1, lens@.len() as int);
            lemma_gboundary_mono(lens@, 0, j - 1);
            lemma_first_over_found(s, lens@, tb, horiz as int, 0, j as int);
        }
        if h - left.1 <= x - h {
            left.0
        } else {
            final_char
        }
    }
}

/// Moving up from a char index, keeping (or starting to keep) a column.
fn up(rope: &Rope, char_idx: usize, horiz: Option<usize>, tab_size: usize) -> (r: (usize, Option<usize>))
    requires
        char_idx <= rope_text(*rope).len(),
        tab_size > 0,
        8 * rope_text(*rope).len() <= usize::MAX,
    ensures
        r.0 == up_from(rope_text(*rope), char_idx as int, horiz, tab_size as int).0,
        r.1 == up_from(rope_text(*rope), char_idx as int, horiz, tab_size as int).1,
        r.0 <= rope_text(*rope).len(),
        line_of(rope_text(*rope), char_idx as int) > 0 ==> line_of(rope_text(*rope), r.0 as int) == line_of(
            rope_text(*rope),
            char_idx as int,
        ) - 1,
{
    let ghost old_horiz = horiz;
    let ghost t = rope_text(*rope);
    let line = rope_char_to_line(rope, char_idx);
    proof {
        lemma_line_of_bound(t, char_idx as int);
    }
    let line_home = rope_line_to_char(rope, line);
    proof {
        lemma_line_start_is(t, line as int, line_home as int);
        lemma_line_start_before(t, char_idx as int, line_home as int);
    }
    let horiz = match horiz {
        Some(h) => h,
        None => width_between(rope, line_home, char_idx),
    };
    if char_idx == 0 {
        return (char_idx, Some(0));
    }
    if line == 0 {
        return (0, Some(horiz));
    }
    let prev_line = line - 1;
    let prev_line_home = rope_line_to_char(rope, prev_line);
    proof {
        lemma_line_start_is(t, prev_line as int, prev_line_home as int);
        lemma_line_starts_increase(t, prev_line as int, prev_line_home as int, line_home as int);
    }
    let prev_line_end = line_home - 1;
    let p = closest_in(rope, prev_line_home, prev_line_end, horiz, tab_size);
    proof {
        assert(line_text(t, prev_line as int) == t.subrange(prev_line_home as int, prev_line_end as int));
        lemma_up_prev_line(t, char_idx as int, old_horiz, tab_size as int);
    }
    (p, Some(horiz))
}

/// Moving down from a char index, keeping (or starting to keep) a column.
fn down(rope: &Rope, char_idx: usize, horiz: Option<usize>, tab_size: usize) -> (r: (usize, Option<usize>))
    requires
        char_idx <= rope_text(*rope).len(),
        tab_size > 0,
        8 * rope_text(*rope).len() <= usize::MAX,
    ensures
        r.0 == down_from(rope_text(*rope), char_idx as int, horiz, tab_size as int).0,
        r.1 == down_from(rope_text(*rope), char_idx as int, horiz, tab_size as int).1,
        r.0 <= rope_text(*rope).len(),
        char_idx < rope_text(*rope).len() && line_of(rope_text(*rope), char_idx as int) + 1 < num_lines(
            rope_text(*rope),
        ) ==> line_of(rope_text(*rope), r.0 as int) == line_of(rope_text(*rope), char_idx as int) + 1,
{
    let ghost old_horiz = horiz;
    let ghost t = rope_text(*rope);
    let line = rope_char_to_line(rope, char_idx);
    let len_lines = rope_len_lines(rope);
    let len_chars = rope_len_chars(rope);
    proof {
        lemma_line_of_bound(t, char_idx as int);
    }
    let line_home = rope_line_to_char(rope, line);
    proof {
        lemma_line_start_is(t, line as int, line_home as int);
        lemma_line_start_before(t, char_idx as int, line_home as int);
    }
    let cur_x_diff = width_between(rope, line_home, char_idx);
    if char_idx == len_chars {
        return (char_idx, Some(cur_x_diff));
    }
    let horiz = match horiz {
        Some(h) => h,
        None => cur_x_diff,
    };
    if line == len_lines - 1 {
        return (len_chars, Some(horiz));
    }
    let next_line = line + 1;
    let next_line_home = rope_line_to_char(rope, next_line);
    proof {
        lemma_line_start_is(t, next_line as int, next_line_home as int);
    }
    let next_line_end = if next_line == len_lines - 1 {
        len_chars
    } else {
        let after = rope_line_to_char(rope, next_line + 1);
        proof {
            lemma_line_start_is(t, next_line + 1, after as int);
            lemma_line_starts_increase(t, next_line as int, next_line_home as int, after as int);
        }
        after - 1
    };
    let p = closest_in(rope, next_line_home, next_line_end, horiz, tab_size);
    proof {
        assert(line_text(t, next_line as int) == t.subrange(next_line_home as int, next_line_end as int));
        lemma_down_next_line(t, char_idx as int, old_horiz, tab_size as int);
    }
    (p, Some(horiz))
}

/// Moving a selection up or down a line.
pub struct VerticalMap<'a> {
    pub rope: &'a Rope,
    pub down: bool,
    pub extend: bool,
    pub tab_size: usize,
}

impl<'a> SelectionMap for VerticalMap<'a> {
    open spec fn pre(&self, s: Selection) -> bool {
        &&& sel_within(s, rope_text(*self.rope).len() as int)
        &&& self.tab_size > 0
        &&& 8 * rope_text(*self.rope).len() <= usize::MAX
    }

    open spec fn spec_apply(&self, s: Selection) -> Selection {
        sel_vertical(rope_text(*self.rope), s, self.down, self.extend, self.tab_size as int)
    }

    open spec fn post(&self, t: Selection) -> bool {
        sel_within(t, rope_text(*self.rope).len() as int)
    }

    fn apply(&self, s: Selection) -> (r: Selection) {
        let mut sel = s;
        let (final_char, horiz) = if self.down {
            down(self.rope, sel.cursor(), sel.horiz, self.tab_size)
        } else {
            up(self.rope, sel.cursor(), sel.horiz, self.tab_size)
        };
        sel.horiz = horiz;
        if !self.extend {
            sel.start = final_char;
        }
        sel.end = final_char;
        sel
    }
}

/// The selections after moving those of view `v` up or down a line `k`
/// times in text `t`.
pub open spec fn views_vertical(
    vs: ViewSels,
    t: Seq<char>,
    v: ViewId,
    down: bool,
    extend: bool,
    tab: int,
    k: nat,
) -> ViewSels
    decreases k,
{
    if k == 0 {
        vs
    } else {
        let prev = views_vertical(vs, t, v, down, extend, tab, (k - 1) as nat);
        snap_view(
            set_sels(prev, v, sels_of(prev, v).map_values(|s: Selection| sel_vertical(t, s, down, extend, tab))),
            v,
            t,
        )
    }
}

impl Buffer {
    /// Moves every selection of a view up or down a line.
    fn move_vertical(&mut self, view_id: ViewId, down: bool, extend: bool)
        requires
            old(self).wf(),
            8 * old(self).text().len() <= usize::MAX,
        ensures
            final(self).wf(),
            final(self).text() == old(self).text(),
            final(self).same_setup(old(self)),
            final(self).views() == snap_view(
                set_sels(
                    old(self).views(),
                    view_id,
                    sels_of(old(self).views(), view_id).map_values(
                        |s: Selection| sel_vertical(old(self).text(), s, down, extend, old(self).spec_tab_size() as int),
                    ),
                ),
                view_id,
                old(self).text(),
            ),
            on_boundaries(old(self).views(), old(self).text()) ==> on_boundaries(final(self).views(), final(self).text()),
            sels_of(final(self).views(), view_id).len() == sels_of(old(self).views(), view_id).len(),
    {
        let sels = self.view_sels_vec(view_id);
        let ghost n = self.text().len() as int;
        proof {
            lemma_sels_of_within(self.views(), view_id, n);
            self.lemma_model();
        }
        let map = VerticalMap { rope: &self.rope, down, extend, tab_size: self.tab_size };
        assert forall|k: int| 0 <= k < sels@.len() implies map.pre(sels@[k]) by {
            assert(sels_of(self.views(), view_id)[k].start <= n);
        }
        let new_sels = map_selections(&sels, &map);
        let ghost f = |s: Selection| sel_vertical(old(self).text(), s, down, extend, old(self).spec_tab_size() as int);
        assert forall|k: int| 0 <= k < new_sels@.len() implies new_sels@[k] == f(sels@[k]) by {
        }
        assert(new_sels@ =~= sels@.map_values(f));
        proof {
            assert forall|k: int| 0 <= k < new_sels@.len() implies new_sels@[k].start <= n
                && new_sels@[k].end <= n by {
                assert(map.post(new_sels@[k]));
            }
            lemma_sels_within_set(self.views(), view_id, new_sels@, n);
            lemma_set_sels(self.views(), view_id, new_sels@, view_id);
        }
        let ghost moved = new_sels@;
        self.set_view_sels(view_id, new_sels);
        self.snap_view_sels(view_id);
        proof {
            let vs = old(self).views();
            let t = old(self).text();
            let w = set_sels(vs, view_id, moved);
            let y = sels_of(w, view_id).map_values(|x: Selection| snap_sel(t, x));
            lemma_set_sels(w, view_id, y, view_id);
            lemma_set_sels_twice(vs, view_id, moved, y);
            if on_boundaries(vs, t) {
                lemma_on_boundaries_set(vs, view_id, y, t);
            }
        }
    }

    /// Repeats moving a view's selections up or down, `count` times.
    fn move_vertical_times(&mut self, view_id: ViewId, down: bool, extend: bool, count: usize)
        requires
            old(self).wf(),
            8 * old(self).text().len() <= usize::MAX,
        ensures
            final(self).wf(),
            final(self).text() == old(self).text(),
            final(self).same_setup(old(self)),
            final(self).views() == views_vertical(
                old(self).views(),
                old(self).text(),
                view_id,
                down,
                extend,
                old(self).spec_tab_size() as int,
                count as nat,
            ),
            on_boundaries(old(self).views(), old(self).text()) ==> on_boundaries(final(self).views(), final(self).text()),
            sels_of(final(self).views(), view_id).len() == sels_of(old(self).views(), view_id).len(),
    {
        let mut i: usize = 0;
        while i < count
            invariant
                i <= count,
                self.wf(),
                self.text() == old(self).text(),
                self.same_setup(old(self)),
                8 * old(self).text().len() <= usize::MAX,
                self.views() == views_vertical(
                    old(self).views(),
                    old(self).text(),
                    view_id,
                    down,
                    extend,
                    old(self).spec_tab_size() as int,
                    i as nat,
                ),
                on_boundaries(old(self).views(), old(self).text()) ==> on_boundaries(self.views(), self.text()),
                sels_of(self.views(), view_id).len() == sels_of(old(self).views(), view_id).len(),
            decreases count - i,
        {
            let ghost before = self.views();
            self.move_vertical(view_id, down, extend);
            proof {
                let f = |s: Selection| sel_vertical(old(self).text(), s, down, extend, old(self).spec_tab_size() as int);
                assert(self.views() == snap_view(set_sels(before, view_id, sels_of(before, view_id).map_values(f)), view_id, old(self).text()));
            }
            i = i + 1;
        }
    }

    /// Move the cursor up a line, keeping its column as far as the line allows.
    pub fn move_up(&mut self, view_id: ViewId)
        requires
            old(self).wf(),
            8 * old(self).text().len() <= usize::MAX,
        ensures
            final(self).wf(),
            final(self).text() == old(self).text(),
            final(self).same_setup(old(self)),
            final(self).views() == views_vertical(
                old(self).views(),
                old(self).text(),
                view_id,
                false,
                false,
                old(self).spec_tab_size() as int,
                1,
            ),
            on_boundaries(old(self).views(), old(self).text()) ==> on_boundaries(final(self).views(), final(self).text()),
            sels_of(final(self).views(), view_id).len() == sels_of(old(self).views(), view_id).len(),
    {
        self.move_vertical(view_id, false, false);
        assert(views_vertical(old(self).views(), old(self).text(), view_id, false, false, old(self).spec_tab_size() as int, 0) == old(self).views());
    }

    /// Move the cursor up a line while modifying the selection region.
    pub fn move_up_and_modify_selection(&mut self, view_id: ViewId)
        requires
            old(self).wf(),
            8 * old(self).text().len() <= usize::MAX,
        ensures
            final(self).wf(),
            final(self).text() == old(self).text(),
            final(self).same_setup(old(self)),
            final(self).views() == views_vertical(
                old(self).views(),
                old(self).text(),
                view_id,
                false,
                true,
                old(self).spec_tab_size() as int,
                1,
            ),
            on_boundaries(old(self).views(), old(self).text()) ==> on_boundaries(final(self).views(), final(self).text()),
            sels_of(final(self).views(), view_id).len() == sels_of(old(self).views(), view_id).len(),
    {
        self.move_vertical(view_id, false, true);
        assert(views_vertical(old(self).views(), old(self).text(), view_id, false, true, old(self).spec_tab_size() as int, 0) == old(self).views());
    }

    /// Move the cursor down a line, keeping its column as far as the line allows.
    pub fn move_down(&mut self, view_id: ViewId)
        requires
            old(self).wf(),
            8 * old(self).text().len() <= usize::MAX,
        ensures
            final(self).wf(),
            final(self).text() == old(self).text(),
            final(self).same_setup(old(self)),
            final(self).views() == views_vertical(
                old(self).views(),
                old(self).text(),
                view_id,
                true,
                false,
                old(self).spec_tab_size() as int,
                1,
            ),
            on_boundaries(old(self).views(), old(self).text()) ==> on_boundaries(final(self).views(), final(self).text()),
            sels_of(final(self).views(), view_id).len() == sels_of(old(self).views(), view_id).len(),
    {
        self.move_vertical(view_id, true, false);
        assert(views_vertical(old(self).views(), old(self).text(), view_id, true, false, old(self).spec_tab_size() as int, 0) == old(self).views());
    }

    /// Move the cursor down a line while modifying the selection region.
    pub fn move_down_and_modify_selection(&mut self, view_id: ViewId)
        requires
            old(self).wf(),
            8 * old(self).text().len() <= usize::MAX,
        ensures
            final(self).wf(),
            final(self).text() == old(self).text(),
            final(self).same_setup(old(self)),
            final(self).views() == views_vertical(
                old(self).views(),
                old(self).text(),
                view_id,
                true,
                true,
                old(self).spec_tab_size() as int,
                1,
            ),
            on_boundaries(old(self).views(), old(self).text()) ==> on_boundaries(final(self).views(), final(self).text()),
            sels_of(final(self).views(), view_id).len() == sels_of(old(self).views(), view_id).len(),
    {
        self.move_vertical(view_id, true, true);
        assert(views_vertical(old(self).views(), old(self).text(), view_id, true, true, old(self).spec_tab_size() as int, 0) == old(self).views());
    }

    /// Move the cursor up ten lines.
    pub fn page_up(&mut self, view_id: ViewId)
        requires
            old(self).wf(),
            8 * old(self).text().len() <= usize::MAX,
        ensures
            final(self).wf(),
            final(self).text() == old(self).text(),
            final(self).same_setup(old(self)),
            final(self).views() == views_vertical(
                old(self).views(),
                old(self).text(),
                view_id,
                false,
                false,
                old(self).spec_tab_size() as int,
                10,
            ),
            on_boundaries(old(self).views(), old(self).text()) ==> on_boundaries(final(self).views(), final(self).text()),
            sels_of(final(self).views(), view_id).len() == sels_of(old(self).views(), view_id).len(),
    {
        self.move_vertical_times(view_id, false, false, 10)
    }

    /// Move the cursor down ten lines.
    pub fn page_down(&mut self, view_id: ViewId)
        requires
            old(self).wf(),
            8 * old(self).text().len() <= usize::MAX,
        ensures
            final(self).wf(),
            final(self).text() == old(self).text(),
            final(self).same_setup(old(self)),
            final(self).views() == views_vertical(
                old(self).views(),
                old(self).text(),
                view_id,
                true,
                false,
                old(self).spec_tab_size() as int,
                10,
            ),
            on_boundaries(old(self).views(), old(self).text()) ==> on_boundaries(final(self).views(), final(self).text()),
            sels_of(final(self).views(), view_id).len() == sels_of(old(self).views(), view_id).len(),
    {
        self.move_vertical_times(view_id, true, false, 10)
    }

    /// Move the cursor up ten lines while modifying the selection region.
    pub fn page_up_and_modify_selection(&mut self, view_id: ViewId)
        requires
            old(self).wf(),
            8 * old(self).text().len() <= usize::MAX,
        ensures
            final(self).wf(),
            final(self).text() == old(self).text(),
            final(self).same_setup(old(self)),
            final(self).views() == views_vertical(
                old(self).views(),
                old(self).text(),
                view_id,
                false,
                true,
                old(self).spec_tab_size() as int,
                10,
            ),
            on_boundaries(old(self).views(), old(self).text()) ==> on_boundaries(final(self).views(), final(self).text()),
            sels_of(final(self).views(), view_id).len() == sels_of(old(self).views(), view_id).len(),
    {
        self.move_vertical_times(view_id, false, true, 10)
    }

    /// Move the cursor down ten lines while modifying the selection region.
    pub fn page_down_and_modify_selection(&mut self, view_id: ViewId)
        requires
            old(self).wf(),
            8 * old(self).text().len() <= usize::MAX,
        ensures
            final(self).wf(),
            final(self).text() == old(self).text(),
            final(self).same_setup(old(self)),
            final(self).views() == views_vertical(
                old(self).views(),
                old(self).text(),
                view_id,
                true,
                true,
                old(self).spec_tab_size() as int,
                10,
            ),
            on_boundaries(old(self).views(), old(self).text()) ==> on_boundaries(final(self).views(), final(self).text()),
            sels_of(final(self).views(), view_id).len() == sels_of(old(self).views(), view_id).len(),
    {
        self.move_vertical_times(view_id, true, true, 10)
    }
}

} // verus!
