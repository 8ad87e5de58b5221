//! The order of file names: char by char, by code point, a proper prefix
//! first (the order of their UTF-8 bytes).
use vstd::prelude::*;
use crate::text::str_chars;

verus! {

/// `a` comes before `b` when compared from position `i` on.
pub open spec fn lt_from(a: Seq<char>, b: Seq<char>, i: int) -> bool
    decreases a.len() - i,
{
    if i >= a.len() {
        i < b.len()
    } else if i >= b.len() {
        false
    } else if a[i] != b[i] {
        (a[i] as int) < (b[i] as int)
    } else {
        lt_from(a, b, i + 1)
    }
}

/// Name `a` comes before name `b`.
pub open spec fn name_lt(a: Seq<char>, b: Seq<char>) -> bool {
    lt_from(a, b, 0)
}

/// No name comes before itself.
pub proof fn lemma_name_lt_irreflexive(a: Seq<char>, i: int)
    requires
        0 <= i,
    ensures
        !lt_from(a, a, i),
    decreases a.len() - i,
{
    if i < a.len() {
        lemma_name_lt_irreflexive(a, i + 1);
    }
}

/// Of two names, at most one comes first.
pub proof fn lemma_name_lt_asymmetric(a: Seq<char>, b: Seq<char>, i: int)
    requires
        0 <= i,
        lt_from(a, b, i),
    ensures
        !lt_from(b, a, i),
    decreases a.len() - i,
{
    if i < a.len() && i < b.len() && a[i] == b[i] {
        lemma_name_lt_asymmetric(a, b, i + 1);
    }
}

/// The order of names is transitive.
pub proof fn lemma_name_lt_transitive(a: Seq<char>, b: Seq<char>, c: Seq<char>, i: int)
    requires
        0 <= i,
        lt_from(a, b, i),
        lt_from(b, c, i),
    ensures
        lt_from(a, c, i),
    decreases a.len() - i,
{
    if i < a.len() && i < b.len() && i < c.len() && a[i] == b[i] && b[i] == c[i] {
        lemma_name_lt_transitive(a, b, c, i + 1);
    }
}

/// Two names that differ from position `i` on are ordered one way or the
/// other.
pub proof fn lemma_name_lt_total(a: Seq<char>, b: Seq<char>, i: int)
    requires
        0 <= i <= a.len(),
        i <= b.len(),
    ensures
        lt_from(a, b, i) || lt_from(b, a, i) || (a.len() == b.len() && forall|j: int|
            i <= j < a.len() ==> a[j] == b[j]),
    decreases a.len() - i,
{
    if i < a.len() && i < b.len() {
        if a[i] == b[i] {
            lemma_name_lt_total(a, b, i + 1);
            if a.len() == b.len() && forall|j: int| i + 1 <= j < a.len() ==> a[j] == b[j] {
                assert forall|j: int| i <= j < a.len() implies a[j] == b[j] by {
                    if j > i {
                        assert(i + 1 <= j);
                    }
                }
            }
        } else {
            assert((a[i] as int) != (b[i] as int));
        }
    }
}

/// Two different names are ordered one way or the other.
pub proof fn lemma_names_ordered(a: Seq<char>, b: Seq<char>)
    requires
        a != b,
    ensures
        name_lt(a, b) || name_lt(b, a),
{
    lemma_name_lt_total(a, b, 0);
    if !name_lt(a, b) && !name_lt(b, a) {
        assert(a =~= b);
    }
}

/// Whether name `a` comes before name `b`.
pub fn name_before(a: &str, b: &str) -> (r: bool)
    ensures
        r == name_lt(a@, b@),
{
    let x = str_chars(a);
    let y = str_chars(b);
    let mut i: usize = 0;
    while i < x.len() && i < y.len()
        invariant
            x@ == a@,
            y@ == b@,
            i <= x@.len(),
            i <= y@.len(),
            lt_from(a@, b@, i as int) == name_lt(a@, b@),
        decreases x@.len() - i,
    {
        if x[i] != y[i] {
            return x[i] < y[i];
        }
        i = i + 1;
    }
    i < y.len()
}

} // verus!
