//! Reading a buffer: sizes, index conversions, lines, and the text laid out
//! for display.
use vstd::prelude::*;
use ropey::Rope;
use crate::buffer::Buffer;
use crate::rope::{
    rope_text, rope_clone, rope_len_bytes, rope_len_chars, rope_len_lines, rope_char_to_line,
    rope_line_to_char, rope_char_to_byte, rope_line_to_byte, rope_slice_string, rope_char,
    bytes_before, line_of, num_lines, line_start, is_line_start, line_byte, lemma_line_start_is,
    lemma_line_of_bound, lemma_line_starts_increase,
};
use crate::text::{str_chars, string_push};

verus! {

/// Where line `l` (of the lines `t` has) ends: the start of the next line,
/// or the end of the text for the last line.
pub open spec fn line_limit(t: Seq<char>, l: int) -> int {
    if l == num_lines(t) - 1 {
        t.len() as int
    } else {
        line_start(t, l + 1)
    }
}

/// The chars of line `l`, its line break included.
pub open spec fn line_text(t: Seq<char>, l: int) -> Seq<char> {
    t.subrange(line_start(t, l), line_limit(t, l))
}

/// How a line is shown: a tab becomes `tab` spaces, line feeds and
/// carriage returns are left out.
pub open spec fn display_text(s: Seq<char>, tab: nat) -> Seq<char>
    decreases s.len(),
{
    if s.len() == 0 {
        Seq::empty()
    } else {
        let c = s.last();
        display_text(s.drop_last(), tab) + if c == '\t' {
            Seq::new(tab, |i: int| ' ')
        } else if c != '\n' && c != '\r' {
            seq![c]
        } else {
            Seq::empty()
        }
    }
}

impl Buffer {
    /// The number of bytes of the text in UTF-8.
    pub fn len_bytes(&self) -> (n: usize)
        ensures
            n == bytes_before(self.text(), self.text().len() as int),
    {
        proof {
            self.lemma_model();
        }
        rope_len_bytes(&self.rope)
    }

    /// The number of chars of the text.
    pub fn len_chars(&self) -> (n: usize)
        ensures
            n == self.text().len(),
    {
        proof {
            self.lemma_model();
        }
        rope_len_chars(&self.rope)
    }

    /// The number of lines of the text: one more than its line breaks.
    pub fn len_lines(&self) -> (n: usize)
        ensures
            n == num_lines(self.text()),
    {
        proof {
            self.lemma_model();
        }
        rope_len_lines(&self.rope)
    }

    /// The chars of a line, its line break included.
    pub fn line(&self, line_idx: usize) -> (s: String)
        requires
            line_idx < num_lines(self.text()),
        ensures
            s@ == line_text(self.text(), line_idx as int),
    {
        proof {
            self.lemma_model();
        }
        let ghost t = self.text();
        let len_lines = rope_len_lines(&self.rope);
        let start = rope_line_to_char(&self.rope, line_idx);
        proof {
            lemma_line_start_is(t, line_idx as int, start as int);
        }
        let end = if line_idx == len_lines - 1 {
            rope_len_chars(&self.rope)
        } else {
            let e = rope_line_to_char(&self.rope, line_idx + 1);
            proof {
                lemma_line_start_is(t, line_idx + 1, e as int);
                lemma_line_starts_increase(t, line_idx as int, start as int, e as int);
            }
            e
        };
        rope_slice_string(&self.rope, start, end)
    }

    /// A copy of the rope holding the text.
    pub fn rope_clone(&self) -> (r: Rope)
        ensures
            rope_text(r) == self.text(),
    {
        proof {
            self.lemma_model();
        }
        rope_clone(&self.rope)
    }

    /// The whole text.
    pub fn to_text(&self) -> (s: String)
        ensures
            s@ == self.text(),
    {
        proof {
            self.lemma_model();
        }
        let len = rope_len_chars(&self.rope);
        let s = rope_slice_string(&self.rope, 0, len);
        assert(self.text().subrange(0, len as int) =~= self.text());
        s
    }

    /// The line of a char index.
    pub fn char_to_line(&self, char_idx: usize) -> (l: usize)
        requires
            char_idx <= self.text().len(),
        ensures
            l == line_of(self.text(), char_idx as int),
    {
        proof {
            self.lemma_model();
        }
        rope_char_to_line(&self.rope, char_idx)
    }

    /// Where a line starts, as a char index.
    pub fn line_to_char(&self, line_idx: usize) -> (c: usize)
        requires
            line_idx <= num_lines(self.text()),
        ensures
            line_idx == num_lines(self.text()) ==> c == self.text().len(),
            line_idx < num_lines(self.text()) ==> c == line_start(self.text(), line_idx as int),
    {
        proof {
            self.lemma_model();
        }
        let c = rope_line_to_char(&self.rope, line_idx);
        proof {
            if line_idx < num_lines(self.text()) {
                lemma_line_start_is(self.text(), line_idx as int, c as int);
            }
        }
        c
    }

    /// The byte offset of a char index.
    pub fn char_to_byte(&self, char_idx: usize) -> (b: usize)
        requires
            char_idx <= self.text().len(),
        ensures
            b == bytes_before(self.text(), char_idx as int),
    {
        proof {
            self.lemma_model();
        }
        rope_char_to_byte(&self.rope, char_idx)
    }

    /// Where a line starts, as a byte offset.
    pub fn line_to_byte(&self, line_idx: usize) -> (b: usize)
        requires
            line_idx <= num_lines(self.text()),
        ensures
            b == line_byte(self.text(), line_idx as int),
    {
        proof {
            self.lemma_model();
        }
        rope_line_to_byte(&self.rope, line_idx)
    }

    /// Lays out `text` for display into `out`: each tab becomes as many
    /// spaces as the tab width, line breaks are dropped.
    pub fn filter_line_to_display(&self, text: &str, out: &mut String)
        requires
            self.wf(),
        ensures
            final(out)@ == display_text(text@, self.spec_tab_size() as nat),
    {
        proof {
            self.lemma_model();
        }
        *out = String::new();
        let v = str_chars(text);
        let mut i: usize = 0;
        while i < v.len()
            invariant
                v@ == text@,
                i <= v@.len(),
                out@ == display_text(text@.take(i as int), self.tab_size as nat),
            decreases v@.len() - i,
        {
            let ch = v[i];
            let ghost before = out@;
            proof {
                assert(text@.take(i + 1).drop_last() =~= text@.take(i as int));
            }
            if ch == '\t' {
                let mut k: usize = 0;
                while k < self.tab_size
                    invariant
                        k <= self.tab_size,
                        out@ == before + Seq::new(k as nat, |j: int| ' '),
                    decreases self.tab_size - k,
                {
                    string_push(out, ' ');
                    assert(before + Seq::new((k + 1) as nat, |j: int| ' ') =~= before + Seq::new(
                        k as nat,
                        |j: int| ' ',
                    ).push(' '));
                    k = k + 1;
                }
            } else if ch != '\n' && ch != '\r' {
                string_push(out, ch);
            }
            i = i + 1;
        }
        assert(text@.take(v@.len() as int) =~= text@);
    }
}

} // verus!
