//! The path of an identifier: an ordered sequence of parts, from the root
//! towards the leaf.
use vstd::prelude::*;
use crate::segment::Part;
use crate::error::{Component, ErnError};
use crate::text::{append_str, is_segment, join_slash, push_char, segment_error};

verus! {

/// The texts of a sequence of parts.
pub open spec fn texts_of(v: Seq<Part>) -> Seq<Seq<char>> {
    Seq::new(v.len(), |i: int| v[i]@)
}

/// `a` is a prefix of `b`.
pub open spec fn is_prefix(a: Seq<Seq<char>>, b: Seq<Seq<char>>) -> bool {
    a.len() <= b.len() && b.take(a.len() as int) == a
}

/// The first error among `ps` read as parts, in order, if any.
pub open spec fn parts_error(ps: Seq<Seq<char>>) -> Option<ErnError>
    decreases ps.len(),
{
    if ps.len() == 0 {
        None
    } else if parts_error(ps.drop_last()) is Some {
        parts_error(ps.drop_last())
    } else {
        segment_error(ps.last(), Component::Part)
    }
}

/// The texts of a slice of strings.
pub open spec fn str_texts(v: Seq<&str>) -> Seq<Seq<char>> {
    Seq::new(v.len(), |i: int| v[i]@)
}

/// An ordered sequence of parts; empty for an identifier without a path.
#[derive(Debug, Clone, Eq, Hash)]
pub struct Parts(Vec<Part>);

impl View for Parts {
    type V = Seq<Seq<char>>;

    closed spec fn view(&self) -> Seq<Seq<char>> {
        texts_of(self.0@)
    }
}

impl PartialEq for Parts {
    fn eq(&self, other: &Parts) -> (r: bool) {
        if self.0.len() != other.0.len() {
            assert(self@.len() != other@.len());
            return false;
        }
        let mut i: usize = 0;
        while i < self.0.len()
            invariant
                self.0.len() == other.0.len(),
                i <= self.0.len(),
                forall|j: int| 0 <= j < i ==> self@[j] == other@[j],
            decreases self.0.len() - i,
        {
            if self.0[i] != other.0[i] {
                assert(self@[i as int] != other@[i as int]);
                return false;
            }
            i = i + 1;
        }
        assert(self@ =~= other@);
        true
    }
}

impl vstd::std_specs::cmp::PartialEqSpecImpl for Parts {
    open spec fn obeys_eq_spec() -> bool {
        true
    }

    open spec fn eq_spec(&self, other: &Parts) -> bool {
        self@ == other@
    }
}

impl Parts {
    /// Every part is a segment.
    pub open spec fn wf(&self) -> bool {
        forall|i: int| 0 <= i < self@.len() ==> is_segment(#[trigger] self@[i])
    }

    /// The path made of `parts`, in order.
    pub fn new(parts: Vec<Part>) -> (r: Parts)
        ensures
            r@ == texts_of(parts@),
            (forall|i: int| 0 <= i < parts@.len() ==> (#[trigger] parts@[i]).wf()) ==> r.wf(),
    {
        Parts(parts)
    }

    /// The path made of `texts`, each checked as a part in order; the first
    /// invalid one is the error.
    pub fn from_texts(texts: &[&str]) -> (r: Result<Parts, ErnError>)
        ensures
            r is Ok <==> parts_error(str_texts(texts@)) is None,
            r matches Err(e) ==> parts_error(str_texts(texts@)) == Some(e),
            r matches Ok(p) ==> p@ == str_texts(texts@) && p.wf(),
    {
        let ghost all = str_texts(texts@);
        let mut path = Parts::default();
        let mut i: usize = 0;
        while i < texts.len()
            invariant
                all == str_texts(texts@),
                i <= texts@.len(),
                path@ == all.take(i as int),
                parts_error(all.take(i as int)) is None,
                path.wf(),
            decreases texts.len() - i,
        {
            let ghost t = all.take(i + 1);
            proof {
                assert(t.drop_last() =~= all.take(i as int));
            }
            match Part::new(texts[i]) {
                Ok(p) => {
                    path.push(p);
                    assert(path@ =~= t);
                },
                Err(e) => {
                    proof {
                        lemma_parts_error_extend(all, i as int + 1);
                    }
                    return Err(e);
                },
            }
            i = i + 1;
        }
        assert(all.take(i as int) =~= all);
        Ok(path)
    }

    /// The number of parts.
    pub fn len(&self) -> (r: usize)
        ensures
            r == self@.len(),
    {
        self.0.len()
    }

    /// Whether the path has no parts.
    pub fn is_empty(&self) -> (r: bool)
        ensures
            r == (self@.len() == 0),
    {
        self.0.len() == 0
    }

    /// The part at position `i`.
    pub fn get(&self, i: usize) -> (r: &Part)
        requires
            i < self@.len(),
        ensures
            r@ == self@[i as int],
    {
        &self.0[i]
    }

    /// Appends `part` at the leaf end.
    pub fn push(&mut self, part: Part)
        ensures
            final(self)@ == old(self)@.push(part@),
            old(self).wf() && part.wf() ==> final(self).wf(),
    {
        self.0.push(part);
        assert(self@ =~= old(self)@.push(part@));
    }

    /// Whether `prefix` is a prefix of this path (equal paths included).
    pub fn starts_with(&self, prefix: &Parts) -> (r: bool)
        ensures
            r == is_prefix(prefix@, self@),
    {
        let n = prefix.0.len();
        if n > self.0.len() {
            return false;
        }
        let mut i: usize = 0;
        while i < n
            invariant
                n == prefix@.len(),
                n <= self@.len(),
                i <= n,
                forall|j: int| 0 <= j < i ==> self@[j] == prefix@[j],
            decreases n - i,
        {
            if self.0[i] != prefix.0[i] {
                assert(self@.take(n as int)[i as int] != prefix@[i as int]);
                return false;
            }
            i = i + 1;
        }
        assert(self@.take(n as int) =~= prefix@);
        true
    }

    /// This path followed by all of `other`.
    pub fn concat(&self, other: &Parts) -> (r: Parts)
        ensures
            r@ == self@ + other@,
            self.wf() && other.wf() ==> r.wf(),
    {
        let mut v: Vec<Part> = Vec::new();
        let mut i: usize = 0;
        while i < self.0.len()
            invariant
                i <= self@.len(),
                texts_of(v@) == self@.take(i as int),
            decreases self.0.len() - i,
        {
            let p = self.0[i].duplicate();
            proof {
                lemma_texts_push(v@, p);
            }
            v.push(p);
            assert(texts_of(v@) =~= self@.take(i + 1));
            i = i + 1;
        }
        let mut k: usize = 0;
        while k < other.0.len()
            invariant
                k <= other@.len(),
                texts_of(v@) == self@ + other@.take(k as int),
            decreases other.0.len() - k,
        {
            let p = other.0[k].duplicate();
            proof {
                lemma_texts_push(v@, p);
            }
            v.push(p);
            assert(texts_of(v@) =~= self@ + other@.take(k + 1));
            k = k + 1;
        }
        assert(self@ + other@.take(k as int) =~= self@ + other@);
        Parts(v)
    }

    /// This path without its last part.
    pub fn without_last(&self) -> (r: Parts)
        requires
            self@.len() > 0,
        ensures
            r@ == self@.drop_last(),
            self.wf() ==> r.wf(),
    {
        let n = self.0.len() - 1;
        let mut v: Vec<Part> = Vec::new();
        let mut i: usize = 0;
        while i < n
            invariant
                n == self@.len() - 1,
                i <= n,
                texts_of(v@) == self@.take(i as int),
            decreases n - i,
        {
            let p = self.0[i].duplicate();
            proof {
                lemma_texts_push(v@, p);
            }
            v.push(p);
            assert(texts_of(v@) =~= self@.take(i + 1));
            i = i + 1;
        }
        assert(self@.take(n as int) =~= self@.drop_last());
        Parts(v)
    }

    /// A copy of this path.
    pub(crate) fn duplicate(&self) -> (r: Parts)
        ensures
            r@ == self@,
    {
        let e = Parts(Vec::new());
        assert(e@ =~= Seq::<Seq<char>>::empty());
        let r = e.concat(self);
        assert(r@ =~= self@);
        r
    }

    /// The parts joined with `/`.
    pub fn to_string(&self) -> (r: String)
        ensures
            r@ == join_slash(self@),
    {
        let mut s = String::new();
        let mut i: usize = 0;
        while i < self.0.len()
            invariant
                i <= self@.len(),
                s@ == join_slash(self@.take(i as int)),
            decreases self.0.len() - i,
        {
            if i > 0 {
                push_char(&mut s, '/');
            }
            append_str(&mut s, self.0[i].as_str());
            proof {
                let t = self@.take(i + 1);
                assert(t.drop_last() =~= self@.take(i as int));
                if i == 0 {
                    assert(join_slash(self@.take(0)) =~= Seq::<char>::empty());
                    assert(s@ =~= t[0]);
                } else {
                    assert(s@ =~= join_slash(t.drop_last()) + seq!['/'] + t.last());
                }
            }
            i = i + 1;
        }
        assert(self@.take(i as int) =~= self@);
        s
    }
}

/// A failing prefix of a path fails the whole path with the same error.
proof fn lemma_parts_error_extend(ps: Seq<Seq<char>>, i: int)
    requires
        0 <= i <= ps.len(),
        parts_error(ps.take(i)) is Some,
    ensures
        parts_error(ps) == parts_error(ps.take(i)),
    decreases ps.len() - i,
{
    if i < ps.len() {
        assert(ps.take(i + 1).drop_last() =~= ps.take(i));
        lemma_parts_error_extend(ps, i + 1);
    } else {
        assert(ps.take(i) =~= ps);
    }
}

proof fn lemma_texts_push(v: Seq<Part>, p: Part)
    ensures
        texts_of(v.push(p)) == texts_of(v).push(p@),
{
    assert(texts_of(v.push(p)) =~= texts_of(v).push(p@));
}

impl Default for Parts {
    fn default() -> (r: Parts)
        ensures
            r@ == Seq::<Seq<char>>::empty(),
    {
        let r = Parts(Vec::new());
        assert(r@ =~= Seq::<Seq<char>>::empty());
        r
    }
}

} // verus!
