//! Word boundaries: moving the cursor by words and selecting a word.
use vstd::prelude::*;
use ropey::Rope;
use crate::buffer::{Buffer, SelectionMap, map_selections, lemma_sels_of_within, lemma_sels_within_set};
use crate::chars::{spec_is_whitespace, is_word_char, is_whitespace, is_alphanumeric};
use crate::graphemes::{gboundary, lemma_gboundary_step, lemma_gboundary_mono, slice_graphemes, segmented};
use crate::motion::sel_within;
use crate::rope::{rope_text, rope_len_chars, rope_char, grapheme_lens};
use crate::selection::Selection;
use crate::views::{ViewId, ViewSels, sels_of, set_sels};

verus! {

/// Grapheme `j` of `s` (split as `lens`) is a lone white-space char.
pub open spec fn g_space(s: Seq<char>, lens: Seq<usize>, j: int) -> bool {
    lens[j] == 1 && spec_is_whitespace(s[gboundary(lens, j)])
}

/// Grapheme `j` of `s` is a lone word char.
pub open spec fn g_letter(s: Seq<char>, lens: Seq<usize>, j: int) -> bool {
    lens[j] == 1 && is_word_char(s[gboundary(lens, j)])
}

/// What a word scan has seen so far.
#[derive(Copy, Clone, PartialEq, Eq, Structural)]
pub enum WordState {
    Whitespace,
    Symbols,
    Letters,
}

/// The scan step: the state after grapheme `j`, or `None` when the scan
/// stops before it.
pub open spec fn word_step(s: Seq<char>, lens: Seq<usize>, j: int, st: WordState) -> Option<WordState> {
    let space = g_space(s, lens, j);
    let letter = g_letter(s, lens, j);
    match st {
        WordState::Whitespace => if space {
            Some(WordState::Whitespace)
        } else if letter {
            Some(WordState::Letters)
        } else {
            Some(WordState::Symbols)
        },
        WordState::Symbols => if !space && !letter {
            Some(WordState::Symbols)
        } else {
            None
        },
        WordState::Letters => if letter {
            Some(WordState::Letters)
        } else {
            None
        },
    }
}

/// Scanning left over graphemes `j - 1, j - 2, ..` of `s`: skip white
/// space, then a run of word graphemes or a run of other graphemes; the
/// position where the run ends.
pub open spec fn word_left_scan(s: Seq<char>, lens: Seq<usize>, j: int, st: WordState) -> int
    decreases j,
{
    if j <= 0 {
        0
    } else {
        match word_step(s, lens, j - 1, st) {
            Some(next) => word_left_scan(s, lens, j - 1, next),
            None => gboundary(lens, j),
        }
    }
}

/// Scanning right over graphemes `j, j + 1, ..` of `s`, likewise.
pub open spec fn word_right_scan(s: Seq<char>, lens: Seq<usize>, j: int, st: WordState) -> int
    decreases lens.len() - j,
{
    if j >= lens.len() || j < 0 {
        s.len() as int
    } else {
        match word_step(s, lens, j, st) {
            Some(next) => word_right_scan(s, lens, j + 1, next),
            None => gboundary(lens, j),
        }
    }
}

/// The word boundary left of position `c` of `t`.
pub open spec fn word_left_of(t: Seq<char>, c: int) -> int {
    let s = t.subrange(0, c);
    word_left_scan(s, grapheme_lens(s), grapheme_lens(s).len() as int, WordState::Whitespace)
}

/// The word boundary right of position `c` of `t`.
pub open spec fn word_right_of(t: Seq<char>, c: int) -> int {
    let s = t.subrange(c, t.len() as int);
    c + word_right_scan(s, grapheme_lens(s), 0, WordState::Whitespace)
}

/// A scan right in a run of word graphemes from grapheme `j` stops at the
/// first grapheme `m` from `j` on that is not a lone word char (at the end
/// of `s` when there is none).
proof fn lemma_letters_scan(s: Seq<char>, lens: Seq<usize>, j: int) -> (m: int)
    requires
        0 <= j <= lens.len(),
        gboundary(lens, lens.len() as int) == s.len(),
    ensures
        j <= m <= lens.len(),
        word_right_scan(s, lens, j, WordState::Letters) == gboundary(lens, m),
        forall|k: int| j <= k < m ==> g_letter(s, lens, k),
        m < lens.len() ==> !g_letter(s, lens, m),
    decreases lens.len() - j,
{
    if j == lens.len() {
        j
    } else if g_letter(s, lens, j) {
        lemma_letters_scan(s, lens, j + 1)
    } else {
        j
    }
}

/// Graphemes of one char each, up to `m`, end where their count says.
proof fn lemma_single_chars(lens: Seq<usize>, m: int)
    requires
        0 <= m <= lens.len(),
        forall|k: int| 0 <= k < m ==> lens[k] == 1,
    ensures
        forall|k: int| 0 <= k <= m ==> gboundary(lens, k) == k,
    decreases m,
{
    if m == 0 {
        assert(lens.take(0) =~= Seq::<usize>::empty());
    } else {
        lemma_single_chars(lens, m - 1);
        lemma_gboundary_step(lens, m - 1);
    }
}

/// A move right by a word from a position `c` of `t` where a word char
/// begins (a grapheme of its own that is a word char and not white space)
/// goes over the word: every char from `c` up to the result is a word char,
/// at least one, and the grapheme at the result, if there is one, is not a
/// lone word char.
#[verifier::rlimit(40)]
pub proof fn lemma_word_right_over_word(t: Seq<char>, c: int)
    requires
        0 <= c <= t.len(),
        segmented(t.subrange(c, t.len() as int)),
    ensures
        ({
            let s = t.subrange(c, t.len() as int);
            let lens = grapheme_lens(s);
            let r = word_right_of(t, c);
            lens.len() > 0 && lens[0] == 1 && is_word_char(t[c]) && !spec_is_whitespace(t[c]) ==> {
                &&& c < r <= t.len()
                &&& forall|i: int| c <= i < r ==> is_word_char(#[trigger] t[i])
                &&& r < t.len() ==> !(lens[r - c] == 1 && is_word_char(t[r]))
            }
        }),
{
    let s = t.subrange(c, t.len() as int);
    let lens = grapheme_lens(s);
    if lens.len() > 0 && lens[0] == 1 && is_word_char(t[c]) && !spec_is_whitespace(t[c]) {
        assert(lens.take(0) =~= Seq::<usize>::empty());
        assert(s[gboundary(lens, 0)] == t[c]);
        assert(word_step(s, lens, 0, WordState::Whitespace) == Some(WordState::Letters));
        assert(lens.take(lens.len() as int) =~= lens);
        let m = lemma_letters_scan(s, lens, 1);
        assert(g_letter(s, lens, 0));
        assert forall|k: int| 0 <= k < m implies g_letter(s, lens, k) && lens[k] == 1 by {
            if k > 0 {
                assert(g_letter(s, lens, k));
            }
        }
        lemma_single_chars(lens, m);
        lemma_gboundary_mono(lens, m, lens.len() as int);
        assert(word_right_of(t, c) == c + m);
        assert forall|i: int| c <= i < c + m implies is_word_char(#[trigger] t[i]) by {
            assert(g_letter(s, lens, i - c));
            assert(gboundary(lens, i - c) == i - c);
            assert(s[i - c] == t[i]);
        }
        if c + m < t.len() {
            assert(m < lens.len()) by {
                if m == lens.len() {
                    assert(gboundary(lens, m) == m);
                }
            }
            assert(s[m] == t[c + m]);
        }
    }
}

/// A scan left in a run of word graphemes from before grapheme `j` stops
/// after the last grapheme `m - 1` before `j` that is not a lone word char
/// (at the start of `s` when there is none).
proof fn lemma_letters_scan_left(s: Seq<char>, lens: Seq<usize>, j: int) -> (m: int)
    requires
        0 <= j <= lens.len(),
    ensures
        0 <= m <= j,
        word_left_scan(s, lens, j, WordState::Letters) == gboundary(lens, m),
        forall|k: int| m <= k < j ==> g_letter(s, lens, k),
        m > 0 ==> !g_letter(s, lens, m - 1),
    decreases j,
{
    if j == 0 {
        assert(lens.take(0) =~= Seq::<usize>::empty());
        0
    } else if g_letter(s, lens, j - 1) {
        lemma_letters_scan_left(s, lens, j - 1)
    } else {
        j
    }
}

/// Graphemes of one char each, from `m` up to `n`, end one char apart.
proof fn lemma_single_chars_from(lens: Seq<usize>, m: int, n: int)
    requires
        0 <= m <= n <= lens.len(),
        forall|k: int| m <= k < n ==> lens[k] == 1,
    ensures
        forall|k: int| m <= k <= n ==> gboundary(lens, k) == gboundary(lens, m) + (k - m),
    decreases n - m,
{
    if m < n {
        lemma_single_chars_from(lens, m, n - 1);
        lemma_gboundary_step(lens, n - 1);
    }
}

/// A move left by a word from a position `c` of `t` just after a word char
/// (a grapheme of its own that is a word char and not white space) goes
/// back over the word: every char from the result up to `c` is a word
/// char, at least one, and the grapheme just before the result, if there is
/// one, is not a lone word char.
#[verifier::rlimit(40)]
pub proof fn lemma_word_left_over_word(t: Seq<char>, c: int)
    requires
        0 <= c <= t.len(),
        segmented(t.subrange(0, c)),
    ensures
        ({
            let s = t.subrange(0, c);
            let lens = grapheme_lens(s);
            let l = word_left_of(t, c);
            lens.len() > 0 && lens.last() == 1 && is_word_char(t[c - 1]) && !spec_is_whitespace(t[c - 1]) ==> {
                &&& 0 <= l < c
                &&& forall|i: int| l <= i < c ==> is_word_char(#[trigger] t[i])
                &&& l > 0 ==> exists|k: int|
                    0 <= k < lens.len() && #[trigger] gboundary(lens, k + 1) == l && !(lens[k] == 1
                        && is_word_char(t[l - 1]))
            }
        }),
{
    let s = t.subrange(0, c);
    let lens = grapheme_lens(s);
    let n = lens.len() as int;
    if n > 0 && lens.last() == 1 && is_word_char(t[c - 1]) && !spec_is_whitespace(t[c - 1]) {
        assert(lens.take(n) =~= lens);
        lemma_gboundary_step(lens, n - 1);
        assert(s[gboundary(lens, n - 1)] == t[c - 1]);
        assert(word_step(s, lens, n - 1, WordState::Whitespace) == Some(WordState::Letters));
        let m = lemma_letters_scan_left(s, lens, n - 1);
        assert(g_letter(s, lens, n - 1));
        assert forall|k: int| m <= k < n implies g_letter(s, lens, k) && lens[k] == 1 by {
            if k < n - 1 {
                assert(g_letter(s, lens, k));
            }
        }
        lemma_single_chars_from(lens, m, n);
        let l = gboundary(lens, m);
        assert(word_left_of(t, c) == l);
        assert forall|i: int| l <= i < c implies is_word_char(#[trigger] t[i]) by {
            let k = m + (i - l);
            assert(g_letter(s, lens, k));
            assert(gboundary(lens, k) == i);
            assert(s[i] == t[i]);
        }
        if l > 0 {
            assert(m > 0) by {
                if m == 0 {
                    assert(lens.take(0) =~= Seq::<usize>::empty());
                }
            }
            lemma_gboundary_step(lens, m - 1);
            assert(!g_letter(s, lens, m - 1));
            if lens[m - 1] == 1 {
                assert(s[gboundary(lens, m - 1)] == t[l - 1]);
            }
            assert(gboundary(lens, (m - 1) + 1) == l);
        }
    }
}

/// Whether the grapheme of `lens_j` chars at `pos` is a lone white-space
/// char, and whether it is a lone word char.
pub(crate) fn grapheme_flags(rope: &Rope, pos: usize, len_j: usize) -> (r: (bool, bool))
    requires
        pos < rope_text(*rope).len(),
    ensures
        r.0 == (len_j == 1 && spec_is_whitespace(rope_text(*rope)[pos as int])),
        r.1 == (len_j == 1 && is_word_char(rope_text(*rope)[pos as int])),
{
    if len_j == 1 {
        let c = rope_char(rope, pos);
        (is_whitespace(c), is_alphanumeric(c) || c == '_')
    } else {
        (false, false)
    }
}

/// One scan step, as `word_step` says.
fn exec_word_step(st: WordState, space: bool, letter: bool) -> (r: Option<WordState>)
    ensures
        r == (match st {
            WordState::Whitespace => if space {
                Some(WordState::Whitespace)
            } else if letter {
                Some(WordState::Letters)
            } else {
                Some(WordState::Symbols)
            },
            WordState::Symbols => if !space && !letter {
                Some(WordState::Symbols)
            } else {
                None
            },
            WordState::Letters => if letter {
                Some(WordState::Letters)
            } else {
                None
            },
        }),
{
    match st {
        WordState::Whitespace => {
            if space {
                Some(WordState::Whitespace)
            } else if letter {
                Some(WordState::Letters)
            } else {
                Some(WordState::Symbols)
            }
        },
        WordState::Symbols => {
            if !space && !letter {
                Some(WordState::Symbols)
            } else {
                None
            }
        },
        WordState::Letters => {
            if letter {
                Some(WordState::Letters)
            } else {
                None
            }
        },
    }
}

/// Given a character location, return a new character location to the next
/// left-word-boundary.
fn word_left(rope: &Rope, char_idx: usize) -> (r: usize)
    requires
        char_idx <= rope_text(*rope).len(),
    ensures
        r == word_left_of(rope_text(*rope), char_idx as int),
        r <= char_idx,
        ({
            let t = rope_text(*rope);
            let lens = grapheme_lens(t.subrange(0, char_idx as int));
            lens.len() > 0 && lens.last() == 1 && is_word_char(t[char_idx - 1]) && !spec_is_whitespace(
                t[char_idx - 1],
            ) ==> forall|i: int| r <= i < char_idx ==> is_word_char(#[trigger] t[i])
        }),
{
    let ghost t = rope_text(*rope);
    let ghost s = t.subrange(0, char_idx as int);
    let lens = slice_graphemes(rope, 0, char_idx);
    proof {
        lemma_word_left_over_word(t, char_idx as int);
    }
    let mut state = WordState::Whitespace;
    let mut j: usize = lens.len();
    let mut final_char: usize = char_idx;
    while j > 0
        invariant
            t == rope_text(*rope),
            s == t.subrange(0, char_idx as int),
            char_idx <= t.len(),
            lens@ == grapheme_lens(s),
            forall|k: int| 0 <= k < lens@.len() ==> lens@[k] >= 1,
            gboundary(lens@, lens@.len() as int) == char_idx,
            j <= lens@.len(),
            final_char == gboundary(lens@, j as int),
            word_left_of(t, char_idx as int) == word_left_scan(s, lens@, j as int, state),
            lens@.len() > 0 && lens@.last() == 1 && is_word_char(t[char_idx - 1]) && !spec_is_whitespace(
                t[char_idx - 1],
            ) ==> forall|i: int| word_left_of(t, char_idx as int) <= i < char_idx ==> is_word_char(#[trigger] t[i]),
        decreases j,
    {
        let k = j - 1;
        proof {
            lemma_gboundary_step(lens@, k as int);
            lemma_gboundary_mono(lens@, 0, k as int);
            lemma_gboundary_mono(lens@, j as int, lens@.len() as int);
        }
        let len_k = lens[k];
        let pos = final_char - len_k;
        let (space, letter) = grapheme_flags(rope, pos, len_k);
        assert(space == g_space(s, lens@, k as int));
        assert(letter == g_letter(s, lens@, k as int));
        match exec_word_step(state, space, letter) {
            Some(next) => {
                state = next;
            },
            None => {
                return final_char;
            },
        }
        final_char = pos;
        j = k;
    }
    0
}

/// Given a character location, return a new character location to the next
/// right-word-boundary.
fn word_right(rope: &Rope, char_idx: usize) -> (r: usize)
    requires
        char_idx <= rope_text(*rope).len(),
    ensures
        r == word_right_of(rope_text(*rope), char_idx as int),
        char_idx <= r <= rope_text(*rope).len(),
        ({
            let t = rope_text(*rope);
            let s = t.subrange(char_idx as int, t.len() as int);
            let lens = grapheme_lens(s);
            lens.len() > 0 && lens[0] == 1 && is_word_char(t[char_idx as int])
                && !spec_is_whitespace(t[char_idx as int]) ==> forall|i: int|
                char_idx <= i < r ==> is_word_char(#[trigger] t[i])
        }),
{
    let ghost t = rope_text(*rope);
    let len_chars = rope_len_chars(rope);
    let ghost s = t.subrange(char_idx as int, len_chars as int);
    let lens = slice_graphemes(rope, char_idx, len_chars);
    proof {
        lemma_word_right_over_word(t, char_idx as int);
    }
    let mut state = WordState::Whitespace;
    let mut j: usize = 0;
    let mut final_char: usize = char_idx;
    proof {
        assert(lens@.take(0) =~= Seq::<usize>::empty());
    }
    while j < lens.len()
        invariant
            t == rope_text(*rope),
            len_chars == t.len(),
            s == t.subrange(char_idx as int, len_chars as int),
            char_idx <= t.len(),
            lens@ == grapheme_lens(s),
            forall|k: int| 0 <= k < lens@.len() ==> lens@[k] >= 1,
            gboundary(lens@, lens@.len() as int) == len_chars - char_idx,
            j <= lens@.len(),
            final_char == char_idx + gboundary(lens@, j as int),
            word_right_of(t, char_idx as int) == char_idx + word_right_scan(s, lens@, j as int, state),
            lens@.len() > 0 && lens@[0] == 1 && is_word_char(t[char_idx as int]) && !spec_is_whitespace(
                t[char_idx as int],
            ) ==> forall|i: int|
                char_idx <= i < word_right_of(t, char_idx as int) ==> is_word_char(#[trigger] t[i]),
        decreases lens@.len() - j,
    {
        proof {
            lemma_gboundary_step(lens@, j as int);
            lemma_gboundary_mono(lens@, 0, j as int);
            lemma_gboundary_mono(lens@, j + 1, lens@.len() as int);
        }
        let len_j = lens[j];
        let (space, letter) = grapheme_flags(rope, final_char, len_j);
        assert(space == g_space(s, lens@, j as int));
        assert(letter == g_letter(s, lens@, j as int));
        match exec_word_step(state, space, letter) {
            Some(next) => {
                state = next;
            },
            None => {
                return final_char;
            },
        }
        final_char = final_char + len_j;
        j = j + 1;
    }
    len_chars
}

/// Moving by a word: to the word boundary left or right of the cursor, the
/// anchor following unless the selection is being extended.
pub open spec fn sel_word(t: Seq<char>, s: Selection, right: bool, extend: bool) -> Selection {
    let p = if right {
        word_right_of(t, s.end as int)
    } else {
        word_left_of(t, s.end as int)
    } as usize;
    Selection {
        start: if extend {
            s.start
        } else {
            p
        },
        end: p,
        horiz: None,
    }
}

/// Moving selections by a word.
pub struct WordMap<'a> {
    pub rope: &'a Rope,
    pub right: bool,
    pub extend: bool,
}

impl<'a> SelectionMap for WordMap<'a> {
    open spec fn pre(&self, s: Selection) -> bool {
        sel_within(s, rope_text(*self.rope).len() as int)
    }

    open spec fn spec_apply(&self, s: Selection) -> Selection {
        sel_word(rope_text(*self.rope), s, self.right, self.extend)
    }

    open spec fn post(&self, t: Selection) -> bool {
        sel_within(t, rope_text(*self.rope).len() as int)
    }

    fn apply(&self, s: Selection) -> (r: Selection) {
        let mut sel = s;
        let p = if self.right {
            word_right(self.rope, sel.end)
        } else {
            word_left(self.rope, sel.end)
        };
        if !self.extend {
            sel.start = p;
        }
        sel.end = p;
        sel.horiz = None;
        sel
    }
}

/// The selections after moving those of view `v` by a word in text `t`.
pub open spec fn views_by_word(vs: ViewSels, t: Seq<char>, v: ViewId, right: bool, extend: bool) -> ViewSels {
    set_sels(vs, v, sels_of(vs, v).map_values(|s: Selection| sel_word(t, s, right, extend)))
}

impl Buffer {
    fn move_by_word(&mut self, view_id: ViewId, right: bool, extend: bool)
        requires
            old(self).wf(),
        ensures
            final(self).wf(),
            final(self).text() == old(self).text(),
            final(self).same_setup(old(self)),
            final(self).views() == views_by_word(old(self).views(), old(self).text(), view_id, right, extend),
    {
        let sels = self.view_sels_vec(view_id);
        let ghost n = self.text().len() as int;
        proof {
            lemma_sels_of_within(self.views(), view_id, n);
            self.lemma_model();
        }
        let map = WordMap { rope: &self.rope, right, extend };
        assert forall|k: int| 0 <= k < sels@.len() implies map.pre(sels@[k]) by {
            assert(sels_of(self.views(), view_id)[k].start <= n);
        }
        let new_sels = map_selections(&sels, &map);
        let ghost f = |s: Selection| sel_word(old(self).text(), s, right, extend);
        assert forall|k: int| 0 <= k < new_sels@.len() implies new_sels@[k] == f(sels@[k]) by {
        }
        assert(new_sels@ =~= sels@.map_values(f));
        proof {
            assert forall|k: int| 0 <= k < new_sels@.len() implies new_sels@[k].start <= n
                && new_sels@[k].end <= n by {
                assert(map.post(new_sels@[k]));
            }
            lemma_sels_within_set(self.views(), view_id, new_sels@, n);
        }
        self.set_view_sels(view_id, new_sels);
    }

    /// Move the cursor to the left to the next word boundary.
    pub fn move_word_left(&mut self, view_id: ViewId)
        requires
            old(self).wf(),
        ensures
            final(self).wf(),
            final(self).text() == old(self).text(),
            final(self).same_setup(old(self)),
            final(self).views() == views_by_word(old(self).views(), old(self).text(), view_id, false, false),
    {
        self.move_by_word(view_id, false, false)
    }

    /// Move the cursor to the right to the next word boundary.
    pub fn move_word_right(&mut self, view_id: ViewId)
        requires
            old(self).wf(),
        ensures
            final(self).wf(),
            final(self).text() == old(self).text(),
            final(self).same_setup(old(self)),
            final(self).views() == views_by_word(old(self).views(), old(self).text(), view_id, true, false),
    {
        self.move_by_word(view_id, true, false)
    }

    /// Move the cursor to the left to the next word boundary while modifying the selection region.
    pub fn move_word_left_and_modify_selection(&mut self, view_id: ViewId)
        requires
            old(self).wf(),
        ensures
            final(self).wf(),
            final(self).text() == old(self).text(),
            final(self).same_setup(old(self)),
            final(self).views() == views_by_word(old(self).views(), old(self).text(), view_id, false, true),
    {
        self.move_by_word(view_id, false, true)
    }

    /// Move the cursor to the right to the next word boundary while modifying the selection region.
    pub fn move_word_right_and_modify_selection(&mut self, view_id: ViewId)
        requires
            old(self).wf(),
        ensures
            final(self).wf(),
            final(self).text() == old(self).text(),
            final(self).same_setup(old(self)),
            final(self).views() == views_by_word(old(self).views(), old(self).text(), view_id, true, true),
    {
        self.move_by_word(view_id, true, true)
    }
}

} // verus!
