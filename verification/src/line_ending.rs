//! Line endings and the normalisation of text to one kind of line ending.
use vstd::prelude::*;
use crate::text::{str_chars, string_push};

verus! {

/// The kind of line ending a buffer uses.
#[derive(Debug, Copy, Clone, PartialEq, Eq, Structural)]
pub enum LineEnding {
    LF,
    CR,
    CRLF,
}

/// The chars of a line ending.
pub open spec fn ending_chars(e: LineEnding) -> Seq<char> {
    match e {
        LineEnding::LF => seq!['\n'],
        LineEnding::CR => seq!['\r'],
        LineEnding::CRLF => seq!['\r', '\n'],
    }
}

/// What the char at `i` of `s` becomes: a carriage return becomes `ending`,
/// a line feed right after a carriage return is dropped, anything else is
/// kept.
pub open spec fn normalized_piece(s: Seq<char>, i: int, ending: Seq<char>) -> Seq<char> {
    if s[i] == '\r' {
        ending
    } else if s[i] == '\n' && i > 0 && s[i - 1] == '\r' {
        Seq::empty()
    } else {
        seq![s[i]]
    }
}

/// `s` with every line break (`\r\n`, `\r`) that holds a carriage return
/// replaced by `ending`.
pub open spec fn normalized(s: Seq<char>, ending: Seq<char>) -> Seq<char>
    decreases s.len(),
{
    if s.len() == 0 {
        Seq::empty()
    } else {
        normalized(s.drop_last(), ending) + normalized_piece(s, s.len() - 1, ending)
    }
}

/// A `\n` of `s` at position `i` that comes right after a `\r`.
pub open spec fn lf_after_cr(s: Seq<char>, i: int) -> bool {
    s[i] == '\n' && i > 0 && s[i - 1] == '\r'
}

/// Every `\n` of `s` comes right after a `\r`, and `s` does not end with `\r`.
pub open spec fn spec_is_valid_crlf(s: Seq<char>) -> bool {
    &&& forall|i: int| 0 <= i < s.len() && s[i] == '\n' ==> lf_after_cr(s, i)
    &&& !(s.len() > 0 && s.last() == '\r')
}

impl LineEnding {
    /// `s` with its carriage-return line breaks turned into this ending.
    pub fn normalize(&self, s: &str) -> (r: String)
        ensures
            r@ == normalized(s@, ending_chars(*self)),
    {
        match self {
            LineEnding::LF => {
                proof {
                    reveal_strlit("\n");
                }
                assert("\n"@ =~= seq!['\n']);
                normalize(s, "\n")
            },
            LineEnding::CR => {
                proof {
                    reveal_strlit("\r");
                }
                assert("\r"@ =~= seq!['\r']);
                normalize(s, "\r")
            },
            LineEnding::CRLF => {
                proof {
                    reveal_strlit("\r\n");
                }
                assert("\r\n"@ =~= seq!['\r', '\n']);
                normalize(s, "\r\n")
            },
        }
    }
}

/// Whether `s` holds no carriage return.
pub fn is_valid_lf(s: &str) -> (b: bool)
    ensures
        b == !s@.contains('\r'),
{
    let v = str_chars(s);
    let mut i: usize = 0;
    while i < v.len()
        invariant
            v@ == s@,
            i <= v@.len(),
            forall|j: int| 0 <= j < i ==> v@[j] != '\r',
        decreases v@.len() - i,
    {
        if v[i] == '\r' {
            assert(s@[i as int] == '\r');
            return false;
        }
        i = i + 1;
    }
    true
}

/// Whether `s` holds no line feed.
pub fn is_valid_cr(s: &str) -> (b: bool)
    ensures
        b == !s@.contains('\n'),
{
    let v = str_chars(s);
    let mut i: usize = 0;
    while i < v.len()
        invariant
            v@ == s@,
            i <= v@.len(),
            forall|j: int| 0 <= j < i ==> v@[j] != '\n',
        decreases v@.len() - i,
    {
        if v[i] == '\n' {
            assert(s@[i as int] == '\n');
            return false;
        }
        i = i + 1;
    }
    true
}

/// Whether every line feed of `s` comes right after a carriage return and
/// `s` does not end with a carriage return.
pub fn is_valid_crlf(s: &str) -> (b: bool)
    ensures
        b == spec_is_valid_crlf(s@),
{
    let v = str_chars(s);
    let mut prev_was_cr = false;
    let mut i: usize = 0;
    while i < v.len()
        invariant
            v@ == s@,
            i <= v@.len(),
            prev_was_cr == (i > 0 && v@[i - 1] == '\r'),
            forall|j: int| 0 <= j < i && v@[j] == '\n' ==> lf_after_cr(v@, j),
        decreases v@.len() - i,
    {
        let c = v[i];
        if c == '\r' {
            prev_was_cr = true;
        } else if c == '\n' {
            if !prev_was_cr {
                assert(!lf_after_cr(s@, i as int));
                return false;
            }
            prev_was_cr = false;
        } else {
            prev_was_cr = false;
        }
        i = i + 1;
    }
    if prev_was_cr {
        return false;
    }
    true
}

/// The chars of a text with each `\r\n` and each other `\r` turned into a
/// `\n`, handed out one at a time.
pub struct Normalized {
    chars: Vec<char>,
    pos: usize,
    prev_was_cr: bool,
}

impl Normalized {
    /// The text being normalised.
    pub closed spec fn source(&self) -> Seq<char> {
        self.chars@
    }

    /// How many chars of the text have been read.
    pub closed spec fn consumed(&self) -> int {
        self.pos as int
    }

    /// What has been handed out so far: the normalised chars read.
    pub open spec fn emitted(&self) -> Seq<char> {
        normalized(self.source().take(self.consumed()), seq!['\n'])
    }

    /// The position is within the text, and before its end the flag says
    /// whether the last char read was a carriage return.
    pub closed spec fn wf(&self) -> bool {
        &&& self.pos <= self.chars@.len()
        &&& self.pos < self.chars@.len() ==> self.prev_was_cr == (self.pos > 0
            && self.chars@[self.pos - 1] == '\r')
    }

    pub fn new(s: &str) -> (n: Normalized)
        ensures
            n.wf(),
            n.source() == s@,
            n.consumed() == 0,
    {
        Normalized { chars: str_chars(s), pos: 0, prev_was_cr: false }
    }

    /// The next normalised char; `None` once everything that the text
    /// normalises to has been handed out.
    pub fn next(&mut self) -> (r: Option<char>)
        requires
            old(self).wf(),
        ensures
            final(self).wf(),
            final(self).source() == old(self).source(),
            r matches Some(c) ==> final(self).emitted() == old(self).emitted().push(c),
            r is None ==> old(self).emitted() == normalized(old(self).source(), seq!['\n']),
            r is None ==> final(self).emitted() == old(self).emitted(),
    {
        let ghost s = self.chars@;
        let ghost e = seq!['\n'];
        if self.pos >= self.chars.len() {
            assert(s.take(self.pos as int) =~= s);
            self.prev_was_cr = false;
            return None;
        }
        proof {
            lemma_normalized_step(s, self.pos as int, e);
        }
        let c = self.chars[self.pos];
        self.pos = self.pos + 1;
        if c == '\n' && self.prev_was_cr {
            self.prev_was_cr = false;
            if self.pos >= self.chars.len() {
                assert(s.take(self.pos as int) =~= s);
                assert(normalized(s.take(self.pos as int), e) =~= normalized(s.take(self.pos - 1), e));
                return None;
            }
            proof {
                lemma_normalized_step(s, self.pos as int, e);
            }
            let d = self.chars[self.pos];
            self.pos = self.pos + 1;
            if d == '\r' {
                self.prev_was_cr = true;
                Some('\n')
            } else {
                self.prev_was_cr = false;
                Some(d)
            }
        } else if c == '\r' {
            self.prev_was_cr = true;
            Some('\n')
        } else {
            self.prev_was_cr = false;
            Some(c)
        }
    }
}

/// Text without a carriage return is left as it is, whatever the ending.
pub proof fn lemma_normalize_keeps_lf_text(s: Seq<char>, ending: Seq<char>)
    requires
        !s.contains('\r'),
    ensures
        normalized(s, ending) == s,
    decreases s.len(),
{
    if s.len() > 0 {
        assert(!s.drop_last().contains('\r')) by {
            if s.drop_last().contains('\r') {
                let k = choose|k: int| 0 <= k < s.drop_last().len() && s.drop_last()[k] == '\r';
                assert(s[k] == '\r');
            }
        }
        lemma_normalize_keeps_lf_text(s.drop_last(), ending);
        assert(s[s.len() - 1] != '\r');
        if s.len() >= 2 {
            assert(s[s.len() - 2] != '\r');
        }
        assert(s.drop_last().push(s.last()) =~= s);
    }
}

/// Normalising to line feeds leaves no carriage return.
pub proof fn lemma_normalize_to_lf_leaves_no_cr(s: Seq<char>)
    ensures
        !normalized(s, seq!['\n']).contains('\r'),
    decreases s.len(),
{
    if s.len() > 0 {
        lemma_normalize_to_lf_leaves_no_cr(s.drop_last());
        let a = normalized(s.drop_last(), seq!['\n']);
        let b = normalized_piece(s, s.len() - 1, seq!['\n']);
        assert(!b.contains('\r')) by {
            if b.contains('\r') {
                let k = choose|k: int| 0 <= k < b.len() && b[k] == '\r';
            }
        }
        assert(!(a + b).contains('\r')) by {
            if (a + b).contains('\r') {
                let k = choose|k: int| 0 <= k < (a + b).len() && (a + b)[k] == '\r';
                if k < a.len() {
                    assert(a[k] == '\r');
                } else {
                    assert(b[k - a.len()] == '\r');
                }
            }
        }
    }
}

/// Normalising to line feeds a second time changes nothing.
pub proof fn lemma_normalize_to_lf_twice(s: Seq<char>)
    ensures
        normalized(normalized(s, seq!['\n']), seq!['\n']) == normalized(s, seq!['\n']),
{
    lemma_normalize_to_lf_leaves_no_cr(s);
    lemma_normalize_keeps_lf_text(normalized(s, seq!['\n']), seq!['\n']);
}

/// Text without a line feed is left as it is by normalising to carriage
/// returns.
pub proof fn lemma_normalize_keeps_cr_text(s: Seq<char>)
    requires
        !s.contains('\n'),
    ensures
        normalized(s, seq!['\r']) == s,
    decreases s.len(),
{
    if s.len() > 0 {
        assert(!s.drop_last().contains('\n')) by {
            if s.drop_last().contains('\n') {
                let k = choose|k: int| 0 <= k < s.drop_last().len() && s.drop_last()[k] == '\n';
                assert(s[k] == '\n');
            }
        }
        lemma_normalize_keeps_cr_text(s.drop_last());
        assert(s[s.len() - 1] != '\n');
        assert(s.drop_last().push(s.last()) =~= s);
    }
}

/// What normalising a prefix of well-paired `\r\n` text to `\r\n` gives:
/// the prefix, with a line feed added when it ends inside a pair.
proof fn lemma_crlf_prefix(s: Seq<char>, k: int)
    requires
        0 <= k <= s.len(),
        forall|i: int| 0 <= i < s.len() && s[i] == '\n' ==> lf_after_cr(s, i),
        forall|i: int| 0 <= i < s.len() && #[trigger] s[i] == '\r' ==> i + 1 < s.len() && s[i + 1] == '\n',
    ensures
        k > 0 && s[k - 1] == '\r' ==> normalized(s.take(k), seq!['\r', '\n']) == s.take(k).push('\n'),
        !(k > 0 && s[k - 1] == '\r') ==> normalized(s.take(k), seq!['\r', '\n']) == s.take(k),
    decreases k,
{
    let e = seq!['\r', '\n'];
    if k == 0 {
        assert(normalized(s.take(0), e) =~= s.take(0));
    } else {
        let j = k - 1;
        lemma_crlf_prefix(s, j);
        lemma_normalized_step(s, j, e);
        if s[j] == '\r' {
            assert(s.take(k) =~= s.take(j).push('\r'));
            assert(normalized(s.take(k), e) =~= s.take(k).push('\n'));
        } else if s[j] == '\n' {
            assert(lf_after_cr(s, j));
            assert(s.take(k) =~= s.take(j).push('\n'));
            assert(normalized(s.take(k), e) =~= s.take(k));
        } else {
            assert(s.take(k) =~= s.take(j).push(s[j]));
            assert(normalized(s.take(k), e) =~= s.take(k));
        }
    }
}

/// Text made of line feeds that each follow a carriage return and carriage
/// returns that are each followed by a line feed is left as it is by
/// normalising to `\r\n`.
pub proof fn lemma_normalize_keeps_crlf_text(s: Seq<char>)
    requires
        spec_is_valid_crlf(s),
        forall|i: int| 0 <= i < s.len() && #[trigger] s[i] == '\r' ==> i + 1 < s.len() && s[i + 1] == '\n',
    ensures
        normalized(s, seq!['\r', '\n']) == s,
{
    lemma_crlf_prefix(s, s.len() as int);
    assert(s.take(s.len() as int) =~= s);
}

proof fn lemma_normalized_step(s: Seq<char>, i: int, ending: Seq<char>)
    requires
        0 <= i < s.len(),
    ensures
        normalized(s.take(i + 1), ending) == normalized(s.take(i), ending) + normalized_piece(
            s,
            i,
            ending,
        ),
{
    let t = s.take(i + 1);
    assert(t.drop_last() =~= s.take(i));
    assert(normalized_piece(t, i, ending) == normalized_piece(s, i, ending));
}

/// `s` with every `\r\n` and every other `\r` replaced by `ending`.  Text
/// without a carriage return is returned as it is.
pub fn normalize(s: &str, ending: &str) -> (r: String)
    ensures
        r@ == normalized(s@, ending@),
{
    if is_valid_lf(s) {
        proof {
            lemma_normalize_keeps_lf_text(s@, ending@);
        }
        return s.to_owned();
    }
    let v = str_chars(s);
    let mut ret = String::new();
    let mut i: usize = 0;
    while i < v.len()
        invariant
            v@ == s@,
            i <= v@.len(),
            ret@ == normalized(s@.take(i as int), ending@),
        decreases v@.len() - i,
    {
        proof {
            lemma_normalized_step(s@, i as int, ending@);
        }
        let c = v[i];
        if c == '\r' {
            ret.append(ending);
        } else if c == '\n' && i > 0 && v[i - 1] == '\r' {
        } else {
            string_push(&mut ret, c);
        }
        i = i + 1;
    }
    assert(s@.take(v@.len() as int) =~= s@);
    ret
}

} // verus!
