//! A line of a buffer as it is drawn: its chars, and the spans of bytes that
//! the syntax highlights and the selections color.
use vstd::prelude::*;
use crate::buffer::Buffer;
use crate::queries::{line_limit, line_text};
use crate::rope::{
    rope_char, rope_char_to_byte, rope_len_bytes, rope_len_chars, rope_len_lines,
    rope_line_to_byte, rope_line_to_char, rope_slice_string, bytes_before, num_lines, line_start,
    lemma_line_start_is, lemma_line_starts_increase,
};
use crate::selection::Selection;
use crate::style::{Attr, AttrSpan, Capture};
use crate::theme::{Theme, ThemeAttributes};
use crate::views::{ViewId, sels_of, lemma_view_pos};

verus! {

/// A node of a syntax tree, as highlighting reads it: the bytes it covers
/// and the capture its layer gives it, if any.
#[derive(Copy, Clone, Debug, PartialEq, Eq, Structural)]
pub struct SyntaxNode {
    pub start_byte: usize,
    pub end_byte: usize,
    pub capture: Option<Capture>,
}

/// The spans that give bytes `start..end` the attributes `a`: its text
/// color, then its background, each where it has one.
pub open spec fn attr_spans(a: ThemeAttributes, start: usize, end: usize) -> Seq<AttrSpan> {
    (match a.fg {
        Some(c) => seq![AttrSpan { attr: Attr::ForegroundColor(c), start_idx: start, end_idx: end }],
        None => Seq::empty(),
    }) + (match a.bg {
        Some(c) => seq![AttrSpan { attr: Attr::BackgroundColor(c), start_idx: start, end_idx: end }],
        None => Seq::empty(),
    })
}

/// Bytes `s..e` share a byte with the line of bytes `ls..le`.
pub open spec fn overlaps(s: int, e: int, ls: int, le: int) -> bool {
    s < le && e > ls
}

/// The spans of `a` over the part of bytes `s..e` within the line
/// `ls..le`, counted from the start of the line.
pub open spec fn clipped_spans(a: ThemeAttributes, s: int, e: int, ls: int, le: int) -> Seq<AttrSpan> {
    let start = if s < ls { 0 } else { s - ls };
    let end = if e < le { e - ls } else { le - ls };
    attr_spans(a, start as usize, end as usize)
}

/// The spans a syntax node gives the line `ls..le`: the theme's attributes
/// of its capture, if it overlaps the line and the theme highlights it.
pub open spec fn node_spans(n: SyntaxNode, ls: int, le: int, theme: Theme) -> Seq<AttrSpan> {
    if overlaps(n.start_byte as int, n.end_byte as int, ls, le) {
        match n.capture {
            Some(c) => match theme.highlight(c) {
                Some(a) => clipped_spans(a, n.start_byte as int, n.end_byte as int, ls, le),
                None => Seq::empty(),
            },
            None => Seq::empty(),
        }
    } else {
        Seq::empty()
    }
}

/// The spans the syntax nodes give the line `ls..le`, node after node.
pub open spec fn syntax_spans(nodes: Seq<SyntaxNode>, ls: int, le: int, theme: Theme) -> Seq<AttrSpan>
    decreases nodes.len(),
{
    if nodes.len() == 0 {
        Seq::empty()
    } else {
        syntax_spans(nodes.drop_last(), ls, le, theme) + node_spans(nodes.last(), ls, le, theme)
    }
}

/// The spans a selection of text `t` gives the line `ls..le`: the theme's
/// selection attributes over the selected bytes, if it is not a caret and
/// overlaps the line.
pub open spec fn sel_spans(t: Seq<char>, s: Selection, ls: int, le: int, theme: Theme) -> Seq<AttrSpan> {
    let lo = bytes_before(t, s.spec_range().start as int) as int;
    let hi = bytes_before(t, s.spec_range().end as int) as int;
    if s.start != s.end && overlaps(lo, hi, ls, le) {
        clipped_spans(theme.selection_attrs(), lo, hi, ls, le)
    } else {
        Seq::empty()
    }
}

/// The spans the selections give the line `ls..le`, selection after
/// selection.
pub open spec fn selection_spans(t: Seq<char>, sels: Seq<Selection>, ls: int, le: int, theme: Theme) -> Seq<AttrSpan>
    decreases sels.len(),
{
    if sels.len() == 0 {
        Seq::empty()
    } else {
        selection_spans(t, sels.drop_last(), ls, le, theme) + sel_spans(t, sels.last(), ls, le, theme)
    }
}

/// A line as it is drawn: without its final line feed.
pub open spec fn drawn_line(s: Seq<char>) -> Seq<char> {
    if s.len() > 0 && s.last() == '\n' {
        s.drop_last()
    } else {
        s
    }
}

/// Appends the spans of `a` over the part of bytes `s..e` within the line.
fn push_clipped(spans: &mut Vec<AttrSpan>, a: ThemeAttributes, s: usize, e: usize, ls: usize, le: usize)
    requires
        ls <= le,
        overlaps(s as int, e as int, ls as int, le as int),
    ensures
        final(spans)@ == old(spans)@ + clipped_spans(a, s as int, e as int, ls as int, le as int),
{
    let start = if s < ls { 0 } else { s - ls };
    let end = if e < le { e - ls } else { le - ls };
    let ghost before = spans@;
    match a.fg {
        Some(c) => spans.push(AttrSpan { attr: Attr::ForegroundColor(c), start_idx: start, end_idx: end }),
        None => {},
    }
    let ghost mid = spans@;
    match a.bg {
        Some(c) => spans.push(AttrSpan { attr: Attr::BackgroundColor(c), start_idx: start, end_idx: end }),
        None => {},
    }
    assert(spans@ =~= before + attr_spans(a, start, end));
}

impl Buffer {
    /// Line `line_idx` as it is drawn in view `view_id`: its chars without
    /// the final line feed, and the spans of its bytes (counted from the
    /// start of the line) that the syntax nodes and then the view's
    /// selections color.  `nodes` are the nodes of the syntax tree in the
    /// order a walk of the tree meets them.  `None` for a line past the
    /// last.
    pub fn get_line_with_attributes(
        &self,
        view_id: ViewId,
        line_idx: usize,
        theme: &Theme,
        nodes: &[SyntaxNode],
    ) -> (r: Option<(String, Vec<AttrSpan>)>)
        requires
            self.wf(),
        ensures
            r is None <==> line_idx >= num_lines(self.text()),
            r matches Some(p) ==> {
                let t = self.text();
                let ls = bytes_before(t, line_start(t, line_idx as int)) as int;
                let le = bytes_before(t, line_limit(t, line_idx as int)) as int;
                &&& p.0@ == drawn_line(line_text(t, line_idx as int))
                &&& p.1@ == syntax_spans(nodes@, ls, le, *theme) + selection_spans(
                    t,
                    sels_of(self.views(), view_id),
                    ls,
                    le,
                    *theme,
                )
            },
    {
        proof {
            self.lemma_model();
        }
        let ghost t = self.text();
        let len_lines = rope_len_lines(&self.rope);
        if line_idx >= len_lines {
            return None;
        }
        let start = rope_line_to_char(&self.rope, line_idx);
        proof {
            lemma_line_start_is(t, line_idx as int, start as int);
        }
        let end = if line_idx == len_lines - 1 {
            rope_len_chars(&self.rope)
        } else {
            let e = rope_line_to_char(&self.rope, line_idx + 1);
            proof {
                lemma_line_start_is(t, line_idx + 1, e as int);
                lemma_line_starts_increase(t, line_idx as int, start as int, e as int);
            }
            e
        };
        let ghost lt = line_text(t, line_idx as int);
        let shown_end = if end > start && rope_char(&self.rope, end - 1) == '\n' {
            end - 1
        } else {
            end
        };
        let line = rope_slice_string(&self.rope, start, shown_end);
        assert(line@ =~= drawn_line(lt));

        let line_start_byte = rope_line_to_byte(&self.rope, line_idx);
        let line_end_byte = if line_idx == len_lines - 1 {
            rope_len_bytes(&self.rope)
        } else {
            rope_line_to_byte(&self.rope, line_idx + 1)
        };
        let ghost ls = line_start_byte as int;
        let ghost le = line_end_byte as int;
        proof {
            crate::rope::lemma_bytes_before_mono(t, start as int, end as int);
        }

        let mut spans: Vec<AttrSpan> = Vec::new();
        let mut k: usize = 0;
        while k < nodes.len()
            invariant
                k <= nodes@.len(),
                ls <= le,
                ls == line_start_byte,
                le == line_end_byte,
                spans@ == syntax_spans(nodes@.take(k as int), ls, le, *theme),
            decreases nodes@.len() - k,
        {
            let n = nodes[k];
            proof {
                assert(nodes@.take(k + 1).drop_last() =~= nodes@.take(k as int));
            }
            if n.start_byte < line_end_byte && n.end_byte > line_start_byte {
                match n.capture {
                    Some(c) => match theme.attributes(c) {
                        Some(a) => push_clipped(&mut spans, a, n.start_byte, n.end_byte, line_start_byte, line_end_byte),
                        None => {},
                    },
                    None => {},
                }
            }
            k = k + 1;
        }
        assert(nodes@.take(nodes@.len() as int) =~= nodes@);
        let ghost syn = spans@;

        match self.find_view(view_id) {
            Some(p) => {
                proof {
                    lemma_view_pos(self.views(), view_id, p as int);
                }
                let ghost sels = sels_of(self.views(), view_id);
                let n_sels = self.selections[p].sels.len();
                assert(n_sels == sels.len());
                let mut j: usize = 0;
                while j < n_sels
                    invariant
                        j <= n_sels,
                        n_sels == sels.len(),
                        p < self.views().len(),
                        sels == self.views()[p as int].1,
                        self.wf(),
                        t == self.text(),
                        ls <= le,
                        ls == line_start_byte,
                        le == line_end_byte,
                        spans@ == syn + selection_spans(t, sels.take(j as int), ls, le, *theme),
                    decreases n_sels - j,
                {
                    let s = self.sel_at(p, j);
                    proof {
                        assert(sels.take(j + 1).drop_last() =~= sels.take(j as int));
                        self.lemma_model();
                        assert(self.views()[p as int].1[j as int].start <= t.len());
                        assert(self.views()[p as int].1[j as int].end <= t.len());
                    }
                    if s.start != s.end {
                        let r = s.range();
                        let sel_start_byte = rope_char_to_byte(&self.rope, r.start);
                        let sel_end_byte = rope_char_to_byte(&self.rope, r.end);
                        if sel_start_byte < line_end_byte && sel_end_byte > line_start_byte {
                            push_clipped(&mut spans, theme.selection_attributes(), sel_start_byte, sel_end_byte, line_start_byte, line_end_byte);
                        }
                    }
                    proof {
                        assert(syn + selection_spans(t, sels.take(j + 1), ls, le, *theme) =~= syn
                            + selection_spans(t, sels.take(j as int), ls, le, *theme) + sel_spans(t, s, ls, le, *theme));
                    }
                    j = j + 1;
                }
                assert(sels.take(n_sels as int) =~= sels);
            },
            None => {
                assert(spans@ =~= syn + selection_spans(t, Seq::<Selection>::empty(), ls, le, *theme));
            },
        }
        Some((line, spans))
    }
}

} // verus!
