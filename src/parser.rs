//! Reading an identifier back from its canonical string.
use vstd::prelude::*;
use crate::error::{Component, ErnError};
use crate::ern::{format_ern, Ern, ErnView};
use crate::parts::{parts_error, str_texts, Parts};
use crate::root::Root;
use crate::segment::{Account, Category, Domain};
use crate::text::{
    after, before, compare_text, find_char, is_first, is_segment, join_slash, lemma_first_unique,
    presence_error, segment_error, split_on,
};

verus! {

/// The literal that the first field must hold, `ern`.
pub open spec fn scheme_text() -> Seq<char> {
    seq!['e', 'r', 'n']
}

/// What reading `s` gives. The string is cut at its first four `:` into five
/// fields, and a string with fewer is a format error, as is one whose first
/// field is not `ern`. The next three fields are the domain, category and
/// account, checked in that order. The fifth is cut at its first `/`: before
/// it stands the root, after it the path, whose parts are separated by `/`
/// and checked in order. The first failing check gives the error.
pub open spec fn parse_ern(s: Seq<char>) -> Result<ErnView, ErnError> {
    let r0 = after(s, ':');
    let r1 = after(r0, ':');
    let r2 = after(r1, ':');
    let domain = before(r0, ':');
    let category = before(r1, ':');
    let account = before(r2, ':');
    let rest = after(r2, ':');
    let root = before(rest, '/');
    let parts = if rest.contains('/') {
        split_on(after(rest, '/'), '/')
    } else {
        Seq::empty()
    };
    if !(s.contains(':') && r0.contains(':') && r1.contains(':') && r2.contains(':')) || before(
        s,
        ':',
    ) != scheme_text() {
        Err(ErnError::InvalidFormat)
    } else if presence_error(domain, Component::Domain) is Some {
        Err(presence_error(domain, Component::Domain)->0)
    } else if presence_error(category, Component::Category) is Some {
        Err(presence_error(category, Component::Category)->0)
    } else if presence_error(account, Component::Account) is Some {
        Err(presence_error(account, Component::Account)->0)
    } else if segment_error(root, Component::Root) is Some {
        Err(segment_error(root, Component::Root)->0)
    } else if parts_error(parts) is Some {
        Err(parts_error(parts)->0)
    } else {
        Ok(ErnView { domain, category, account, root, parts })
    }
}

/// Cuts `s` at its first `c`: the text before and the text after.
fn cut_at<'a>(s: &'a str, c: char) -> (r: Option<(&'a str, &'a str)>)
    ensures
        r is Some <==> s@.contains(c),
        r matches Some((a, b)) ==> a@ == before(s@, c) && b@ == after(s@, c),
{
    match find_char(s, c) {
        Some(i) => {
            proof {
                lemma_first_unique(s@, c, i as int);
            }
            let n = s.unicode_len();
            let a = s.substring_char(0, i);
            let b = s.substring_char(i + 1, n);
            Some((a, b))
        },
        None => None,
    }
}

/// `s` split at every `c`.
fn split_text<'a>(s: &'a str, c: char) -> (r: Vec<&'a str>)
    ensures
        str_texts(r@) == split_on(s@, c),
{
    let n = s.unicode_len();
    let mut pieces: Vec<&'a str> = Vec::new();
    let mut start: usize = 0;
    let mut i: usize = 0;
    assert(s@.take(0) =~= Seq::<char>::empty());
    assert(str_texts(pieces@).push(s@.subrange(0, 0)) =~= split_on(s@.take(0), c));
    while i < n
        invariant
            n == s@.len(),
            start <= i <= n,
            str_texts(pieces@).push(s@.subrange(start as int, i as int)) == split_on(
                s@.take(i as int),
                c,
            ),
        decreases n - i,
    {
        let ch = s.get_char(i);
        let ghost done = str_texts(pieces@);
        let ghost cur = s@.subrange(start as int, i as int);
        proof {
            assert(s@.take(i + 1).drop_last() =~= s@.take(i as int));
            assert(s@.take(i + 1).last() == ch);
        }
        if ch == c {
            let piece = s.substring_char(start, i);
            pieces.push(piece);
            start = i + 1;
            assert(str_texts(pieces@) =~= done.push(cur));
            assert(s@.subrange(start as int, i + 1) =~= Seq::<char>::empty());
            assert(str_texts(pieces@).push(s@.subrange(start as int, i + 1)) =~= split_on(
                s@.take(i + 1),
                c,
            ));
        } else {
            assert(s@.subrange(start as int, i + 1) =~= cur.push(ch));
            assert(str_texts(pieces@).push(s@.subrange(start as int, i + 1)) =~= split_on(
                s@.take(i + 1),
                c,
            ));
        }
        i = i + 1;
    }
    let ghost done = str_texts(pieces@);
    let last = s.substring_char(start, n);
    pieces.push(last);
    assert(str_texts(pieces@) =~= done.push(last@));
    assert(s@.take(n as int) =~= s@);
    pieces
}

/// A reader of one identifier string.
pub struct ErnParser {
    ern: String,
}

impl ErnParser {
    /// The text that this parser reads.
    pub closed spec fn text(&self) -> Seq<char> {
        self.ern@
    }

    /// A parser for `ern`.
    pub fn new(ern: String) -> (r: ErnParser)
        ensures
            r.text() == ern@,
    {
        ErnParser { ern }
    }

    /// Reads the identifier; see `parse_ern` for what it gives.
    pub fn parse(&self) -> (r: Result<Ern, ErnError>)
        ensures
            r is Ok <==> parse_ern(self.text()) is Ok,
            r matches Ok(e) ==> parse_ern(self.text()) == Ok::<ErnView, ErnError>(e@) && e.wf(),
            r matches Err(e) ==> parse_ern(self.text()) == Err::<ErnView, ErnError>(e),
    {
        let s = self.ern.as_str();
        let (f0, r0) = match cut_at(s, ':') {
            Some(p) => p,
            None => return Err(ErnError::InvalidFormat),
        };
        let (f1, r1) = match cut_at(r0, ':') {
            Some(p) => p,
            None => return Err(ErnError::InvalidFormat),
        };
        let (f2, r2) = match cut_at(r1, ':') {
            Some(p) => p,
            None => return Err(ErnError::InvalidFormat),
        };
        let (f3, rest) = match cut_at(r2, ':') {
            Some(p) => p,
            None => return Err(ErnError::InvalidFormat),
        };
        let scheme = "ern";
        proof {
            reveal_strlit("ern");
            assert(scheme@ =~= scheme_text());
        }
        match compare_text(f0, scheme) {
            core::cmp::Ordering::Equal => {},
            _ => return Err(ErnError::InvalidFormat),
        }
        let domain = Domain::new(f1)?;
        let category = Category::new(f2)?;
        let account = Account::new(f3)?;
        let (root_text, path) = match cut_at(rest, '/') {
            Some((a, b)) => (a, Some(b)),
            None => (rest, None),
        };
        let root = Root::new(root_text)?;
        let parts = match path {
            Some(p) => Parts::from_texts(split_text(p, '/').as_slice())?,
            None => {
                let e = Parts::default();
                assert(parts_error(Seq::<Seq<char>>::empty()) is None);
                e
            },
        };
        Ok(Ern::new(domain, category, account, root, parts))
    }
}

/// Cutting `a`, `c`, `b` at its first `c` gives back `a` and `b` when `a`
/// holds no `c`.
proof fn lemma_cut_joined(a: Seq<char>, b: Seq<char>, c: char)
    requires
        !a.contains(c),
    ensures
        (a + seq![c] + b).contains(c),
        before(a + seq![c] + b, c) == a,
        after(a + seq![c] + b, c) == b,
{
    let s = a + seq![c] + b;
    assert(s[a.len() as int] == c);
    assert forall|j: int| 0 <= j < a.len() implies s[j] != c by {
        assert(s[j] == a[j]);
    }
    assert(is_first(s, c, a.len() as int));
    lemma_first_unique(s, c, a.len() as int);
    assert(s.take(a.len() as int) =~= a);
    assert(s.skip(a.len() as int + 1) =~= b);
}

/// Text without `c` splits into itself alone.
proof fn lemma_split_single(y: Seq<char>, c: char)
    requires
        !y.contains(c),
    ensures
        split_on(y, c) == seq![y],
    decreases y.len(),
{
    if y.len() > 0 {
        assert(!y.drop_last().contains(c)) by {
            if y.drop_last().contains(c) {
                let k = choose|k: int| 0 <= k < y.drop_last().len() && y.drop_last()[k] == c;
                assert(y[k] == c);
            }
        }
        lemma_split_single(y.drop_last(), c);
        assert(y.last() != c) by {
            assert(y[y.len() - 1] == y.last());
        }
        assert(y.drop_last().push(y.last()) =~= y);
        assert(split_on(y, c) =~= seq![y]);
    } else {
        assert(y =~= Seq::<char>::empty());
    }
}

/// Text without `c` after a last `c` is the last piece.
proof fn lemma_split_append(x: Seq<char>, y: Seq<char>, c: char)
    requires
        !y.contains(c),
    ensures
        split_on(x + seq![c] + y, c) == split_on(x, c).push(y),
    decreases y.len(),
{
    let s = x + seq![c] + y;
    if y.len() == 0 {
        assert(s.drop_last() =~= x);
        assert(s.last() == c);
        assert(y =~= Seq::<char>::empty());
    } else {
        let y0 = y.drop_last();
        assert(!y0.contains(c)) by {
            if y0.contains(c) {
                let k = choose|k: int| 0 <= k < y0.len() && y0[k] == c;
                assert(y[k] == c);
            }
        }
        lemma_split_append(x, y0, c);
        assert(s.drop_last() =~= x + seq![c] + y0);
        assert(s.last() == y.last());
        assert(y.last() != c) by {
            assert(y[y.len() - 1] == y.last());
        }
        assert(y0.push(y.last()) =~= y);
        assert(split_on(s, c) =~= split_on(x, c).push(y));
    }
}

/// A path written out with `/` splits back into its parts.
proof fn lemma_split_join(ps: Seq<Seq<char>>)
    requires
        ps.len() >= 1,
        forall|i: int| 0 <= i < ps.len() ==> is_segment(#[trigger] ps[i]),
    ensures
        split_on(join_slash(ps), '/') == ps,
    decreases ps.len(),
{
    if ps.len() == 1 {
        assert(is_segment(ps[0]));
        lemma_split_single(ps[0], '/');
        assert(seq![ps[0]] =~= ps);
    } else {
        let q = ps.drop_last();
        assert forall|i: int| 0 <= i < q.len() implies is_segment(#[trigger] q[i]) by {
            assert(q[i] == ps[i]);
        }
        lemma_split_join(q);
        assert(is_segment(ps[ps.len() - 1]));
        lemma_split_append(join_slash(q), ps.last(), '/');
        assert(q.push(ps.last()) =~= ps);
    }
}

/// A path of segments has no invalid part.
proof fn lemma_parts_valid(ps: Seq<Seq<char>>)
    requires
        forall|i: int| 0 <= i < ps.len() ==> is_segment(#[trigger] ps[i]),
    ensures
        parts_error(ps) is None,
    decreases ps.len(),
{
    if ps.len() > 0 {
        let q = ps.drop_last();
        assert forall|i: int| 0 <= i < q.len() implies is_segment(#[trigger] q[i]) by {
            assert(q[i] == ps[i]);
        }
        lemma_parts_valid(q);
        assert(is_segment(ps[ps.len() - 1]));
    }
}

/// Reading back the canonical string of a valid identifier gives the same
/// identifier, provided its domain, category and account hold no `:` (which
/// those components accept, but the string's fields cannot carry).
pub proof fn lemma_parse_format_round_trip(e: Ern)
    requires
        e.wf(),
        !e@.domain.contains(':'),
        !e@.category.contains(':'),
        !e@.account.contains(':'),
    ensures
        parse_ern(format_ern(e@)) == Ok::<ErnView, ErnError>(e@),
{
    let v = e@;
    let tail = if v.parts.len() == 0 {
        v.root
    } else {
        v.root + seq!['/'] + join_slash(v.parts)
    };
    let r2 = v.account + seq![':'] + tail;
    let r1 = v.category + seq![':'] + r2;
    let r0 = v.domain + seq![':'] + r1;
    let s = format_ern(v);
    assert(s =~= scheme_text() + seq![':'] + r0);
    assert(!scheme_text().contains(':')) by {
        if scheme_text().contains(':') {
            let k = choose|k: int| 0 <= k < 3 && scheme_text()[k] == ':';
        }
    }
    lemma_cut_joined(scheme_text(), r0, ':');
    lemma_cut_joined(v.domain, r1, ':');
    lemma_cut_joined(v.category, r2, ':');
    lemma_cut_joined(v.account, tail, ':');
    lemma_parts_valid(v.parts);
    assert(after(s, ':') == r0);
    assert(after(r0, ':') == r1);
    assert(after(r1, ':') == r2);
    assert(after(r2, ':') == tail);
    assert(before(s, ':') == scheme_text());
    let parts = if tail.contains('/') {
        split_on(after(tail, '/'), '/')
    } else {
        Seq::empty()
    };
    if v.parts.len() == 0 {
        assert(!tail.contains('/'));
        assert(parts =~= v.parts);
    } else {
        lemma_cut_joined(v.root, join_slash(v.parts), '/');
        lemma_split_join(v.parts);
    }
    assert(before(tail, '/') == v.root);
    assert(parts == v.parts);
    assert(segment_error(v.root, Component::Root) is None);
    assert(parse_ern(s) == Ok::<ErnView, ErnError>(ErnView {
        domain: v.domain,
        category: v.category,
        account: v.account,
        root: v.root,
        parts: v.parts,
    }));
}

} // verus!
