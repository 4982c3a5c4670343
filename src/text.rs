//! Character-level rules of the identifier grammar, and the string
//! operations that the components are built from.
use vstd::prelude::*;
use crate::error::{Component, ErnError};

verus! {

/// The characters that delimit the grammar's fields and path levels.
pub open spec fn is_delimiter(c: char) -> bool {
    c == ':' || c == '/'
}

/// A segment: non-empty and free of grammar delimiters.
pub open spec fn is_segment(s: Seq<char>) -> bool {
    s.len() > 0 && !s.contains(':') && !s.contains('/')
}

/// How a delimiter-free component rejects its text: a delimiter anywhere is a
/// format error, otherwise empty text is an empty-value error.
pub open spec fn segment_error(s: Seq<char>, comp: Component) -> Option<ErnError> {
    if s.contains(':') || s.contains('/') {
        Some(ErnError::InvalidFormat)
    } else if s.len() == 0 {
        Some(ErnError::EmptyValue(comp))
    } else {
        None
    }
}

/// How a component that is only required to be non-empty rejects its text.
pub open spec fn presence_error(s: Seq<char>, comp: Component) -> Option<ErnError> {
    if s.len() == 0 {
        Some(ErnError::EmptyValue(comp))
    } else {
        None
    }
}

/// `i` is the position of the first `c` in `s`.
pub open spec fn is_first(s: Seq<char>, c: char, i: int) -> bool {
    0 <= i < s.len() && s[i] == c && forall|j: int| 0 <= j < i ==> s[j] != c
}

/// The position of the first `c` in `s` (meaningful when `s` contains `c`).
pub open spec fn first_at(s: Seq<char>, c: char) -> int {
    choose|i: int| is_first(s, c, i)
}

/// The text before the first `c`, or all of `s` when it holds none.
pub open spec fn before(s: Seq<char>, c: char) -> Seq<char> {
    if s.contains(c) {
        s.take(first_at(s, c))
    } else {
        s
    }
}

/// The text after the first `c`, or nothing when `s` holds none.
pub open spec fn after(s: Seq<char>, c: char) -> Seq<char> {
    if s.contains(c) {
        s.skip(first_at(s, c) + 1)
    } else {
        Seq::empty()
    }
}

/// `s` split at every `c`, as `str::split` does: `n` delimiters give `n + 1`
/// pieces, empty ones included.
pub open spec fn split_on(s: Seq<char>, c: char) -> Seq<Seq<char>>
    decreases s.len(),
{
    if s.len() == 0 {
        seq![Seq::empty()]
    } else {
        let pieces = split_on(s.drop_last(), c);
        if s.last() == c {
            pieces.push(Seq::empty())
        } else {
            pieces.update(pieces.len() - 1, pieces.last().push(s.last()))
        }
    }
}

/// The pieces of `p` joined with `/` between them.
pub open spec fn join_slash(p: Seq<Seq<char>>) -> Seq<char>
    decreases p.len(),
{
    if p.len() == 0 {
        Seq::empty()
    } else if p.len() == 1 {
        p[0]
    } else {
        join_slash(p.drop_last()) + seq!['/'] + p.last()
    }
}

pub proof fn lemma_first_unique(s: Seq<char>, c: char, i: int)
    requires
        is_first(s, c, i),
    ensures
        s.contains(c),
        first_at(s, c) == i,
{
    assert(s[i] == c);
    let k = first_at(s, c);
    assert(is_first(s, c, k));
    if k < i {
        assert(s[k] != c);
    } else if i < k {
        assert(s[i] != c);
    }
}

/// `a` comes strictly before `b` in lexicographic order of characters.
pub open spec fn lex_lt(a: Seq<char>, b: Seq<char>) -> bool
    decreases a.len(),
{
    if a.len() == 0 {
        b.len() > 0
    } else if b.len() == 0 {
        false
    } else if a[0] != b[0] {
        a[0] < b[0]
    } else {
        lex_lt(a.drop_first(), b.drop_first())
    }
}

/// The lexicographic comparison of `a` with `b`.
pub open spec fn lex_cmp(a: Seq<char>, b: Seq<char>) -> core::cmp::Ordering {
    if a == b {
        core::cmp::Ordering::Equal
    } else if lex_lt(a, b) {
        core::cmp::Ordering::Less
    } else {
        core::cmp::Ordering::Greater
    }
}

/// A shared prefix does not change the order.
pub proof fn lemma_lex_lt_common_prefix(p: Seq<char>, a: Seq<char>, b: Seq<char>)
    ensures
        lex_lt(p + a, p + b) == lex_lt(a, b),
    decreases p.len(),
{
    if p.len() > 0 {
        assert((p + a).drop_first() =~= p.drop_first() + a);
        assert((p + b).drop_first() =~= p.drop_first() + b);
        lemma_lex_lt_common_prefix(p.drop_first(), a, b);
    } else {
        assert(p + a =~= a);
        assert(p + b =~= b);
    }
}

/// Lexicographic order is irreflexive.
pub proof fn lemma_lex_lt_irreflexive(a: Seq<char>)
    ensures
        !lex_lt(a, a),
    decreases a.len(),
{
    if a.len() > 0 {
        lemma_lex_lt_irreflexive(a.drop_first());
    }
}

/// Lexicographic order is asymmetric.
pub proof fn lemma_lex_lt_asymmetric(a: Seq<char>, b: Seq<char>)
    ensures
        !(lex_lt(a, b) && lex_lt(b, a)),
    decreases a.len(),
{
    if a.len() > 0 && b.len() > 0 && a[0] == b[0] {
        lemma_lex_lt_asymmetric(a.drop_first(), b.drop_first());
    }
}

/// Lexicographic order is total on distinct sequences.
pub proof fn lemma_lex_lt_total(a: Seq<char>, b: Seq<char>)
    requires
        a != b,
    ensures
        lex_lt(a, b) || lex_lt(b, a),
    decreases a.len(),
{
    if a.len() > 0 && b.len() > 0 && a[0] == b[0] {
        if a.drop_first() == b.drop_first() {
            assert(a =~= seq![a[0]] + a.drop_first());
            assert(b =~= seq![b[0]] + b.drop_first());
        }
        lemma_lex_lt_total(a.drop_first(), b.drop_first());
    } else if a.len() > 0 && b.len() > 0 {
        assert(a[0] != b[0]);
    } else if a.len() == 0 && b.len() == 0 {
        assert(a =~= b);
    }
}

/// Compares `a` with `b` character by character.
pub fn compare_text(a: &str, b: &str) -> (r: core::cmp::Ordering)
    ensures
        r == lex_cmp(a@, b@),
{
    let n = a.unicode_len();
    let m = b.unicode_len();
    let mut i: usize = 0;
    while i < n && i < m
        invariant
            n == a@.len(),
            m == b@.len(),
            i <= n,
            i <= m,
            a@.take(i as int) == b@.take(i as int),
        decreases n - i,
    {
        let x = a.get_char(i);
        let y = b.get_char(i);
        if x != y {
            proof {
                lemma_cut(a@, i as int);
                lemma_cut(b@, i as int);
                lemma_lex_lt_common_prefix(a@.take(i as int), a@.skip(i as int), b@.skip(i as int));
                if a@ == b@ {
                    assert(a@[i as int] == b@[i as int]);
                }
                assert(x != y);
            }
            if x < y {
                return core::cmp::Ordering::Less;
            } else {
                return core::cmp::Ordering::Greater;
            }
        }
        proof {
            assert(a@.take(i + 1) =~= a@.take(i as int).push(x));
            assert(b@.take(i + 1) =~= b@.take(i as int).push(y));
        }
        i = i + 1;
    }
    proof {
        lemma_cut(a@, i as int);
        lemma_cut(b@, i as int);
        lemma_lex_lt_common_prefix(a@.take(i as int), a@.skip(i as int), b@.skip(i as int));
    }
    if n == m {
        proof {
            assert(a@ =~= a@.take(i as int));
            assert(b@ =~= b@.take(i as int));
        }
        core::cmp::Ordering::Equal
    } else if n < m {
        proof {
            assert(a@ =~= a@.take(i as int));
        }
        core::cmp::Ordering::Less
    } else {
        proof {
            assert(b@ =~= b@.take(i as int));
        }
        core::cmp::Ordering::Greater
    }
}

proof fn lemma_cut(s: Seq<char>, i: int)
    requires
        0 <= i <= s.len(),
    ensures
        s == s.take(i) + s.skip(i),
{
    assert(s =~= s.take(i) + s.skip(i));
}

/// Relies on `String::push`: appends one character.
#[verifier::external_body]
pub(crate) fn push_char(s: &mut String, c: char)
    ensures
        final(s)@ == old(s)@.push(c),
{
    s.push(c)
}

/// The position of the first `c` in `s`, if any.
pub fn find_char(s: &str, c: char) -> (r: Option<usize>)
    ensures
        match r {
            Some(i) => is_first(s@, c, i as int),
            None => !s@.contains(c),
        },
{
    let n = s.unicode_len();
    let mut i: usize = 0;
    while i < n
        invariant
            n == s@.len(),
            i <= n,
            forall|j: int| 0 <= j < i ==> s@[j] != c,
        decreases n - i,
    {
        if s.get_char(i) == c {
            return Some(i);
        }
        i = i + 1;
    }
    proof {
        if s@.contains(c) {
            let k = choose|k: int| 0 <= k < s@.len() && s@[k] == c;
            assert(s@[k] != c);
        }
    }
    None
}

/// Whether `s` holds `c`.
pub fn contains_char(s: &str, c: char) -> (r: bool)
    ensures
        r == s@.contains(c),
{
    match find_char(s, c) {
        Some(i) => {
            assert(s@[i as int] == c);
            true
        },
        None => false,
    }
}

/// Checks `s` as a delimiter-free component.
pub fn check_segment(s: &str, comp: Component) -> (r: Option<ErnError>)
    ensures
        r == segment_error(s@, comp),
{
    if contains_char(s, ':') || contains_char(s, '/') {
        Some(ErnError::InvalidFormat)
    } else if s.unicode_len() == 0 {
        Some(ErnError::EmptyValue(comp))
    } else {
        None
    }
}

/// Checks `s` as a component that must only be non-empty.
pub fn check_presence(s: &str, comp: Component) -> (r: Option<ErnError>)
    ensures
        r == presence_error(s@, comp),
{
    if s.unicode_len() == 0 {
        Some(ErnError::EmptyValue(comp))
    } else {
        None
    }
}

/// Appends all of `t` to `s`.
pub fn append_str(s: &mut String, t: &str)
    ensures
        final(s)@ == old(s)@ + t@,
{
    s.append(t);
}

} // verus!
