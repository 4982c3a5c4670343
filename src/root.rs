//! The root of an identifier: a name made unique and ordered by creation
//! time, from a token that a generator issues and a caller's base name.
use vstd::prelude::*;
use crate::error::{Component, ErnError};
use crate::text::{
    append_str, check_segment, compare_text, is_segment, lemma_lex_lt_common_prefix, lex_cmp,
    lex_lt, push_char, segment_error,
};

verus! {

/// Width in decimal digits of a root's token; a `u64` never needs more.
pub const TOKEN_DIGITS: usize = 20;

/// `10` to the power `w`.
pub open spec fn pow10(w: nat) -> nat
    decreases w,
{
    if w == 0 {
        1
    } else {
        10 * pow10((w - 1) as nat)
    }
}

/// The character of a decimal digit.
pub open spec fn digit_char(d: nat) -> char {
    if d == 0 {
        '0'
    } else if d == 1 {
        '1'
    } else if d == 2 {
        '2'
    } else if d == 3 {
        '3'
    } else if d == 4 {
        '4'
    } else if d == 5 {
        '5'
    } else if d == 6 {
        '6'
    } else if d == 7 {
        '7'
    } else if d == 8 {
        '8'
    } else {
        '9'
    }
}

/// The last `w` decimal digits of `t`, zero-padded on the left.
pub open spec fn decimal(t: nat, w: nat) -> Seq<char>
    decreases w,
{
    if w == 0 {
        Seq::empty()
    } else {
        decimal(t / 10, (w - 1) as nat).push(digit_char(t % 10))
    }
}

/// The name of a generated root: the base name, `_`, then the token's digits.
pub open spec fn generated_name(token: u64, base: Seq<char>) -> Seq<char> {
    base + seq!['_'] + decimal(token as nat, TOKEN_DIGITS as nat)
}

/// The token that a generator whose last token is `last` issues for the
/// clock reading `now`: the reading when it is past `last`, else `last + 1`.
pub open spec fn token_after(last: u64, now: u64) -> u64 {
    if now > last {
        now
    } else {
        (last + 1) as u64
    }
}

/// `n` ends with `_` and a token's digits, as a generated name does.
pub open spec fn has_token(n: Seq<char>) -> bool {
    &&& n.len() > 20
    &&& n[n.len() - 21] == '_'
    &&& forall|i: int| n.len() - 20 <= i < n.len() ==> '0' <= #[trigger] n[i] <= '9'
}

/// The token's digits at the end of a name that has them.
pub open spec fn token_digits(n: Seq<char>) -> Seq<char> {
    n.skip(n.len() - 20)
}

/// What stands before `_` and the token's digits in a name that has them.
pub open spec fn base_of(n: Seq<char>) -> Seq<char> {
    n.take(n.len() - 21)
}

/// How root names order. Names that end in a token order by the token, then
/// by the base name, so that generated roots order by creation whatever their
/// base names; they come after all other names, which order as text.
pub open spec fn root_cmp(a: Seq<char>, b: Seq<char>) -> core::cmp::Ordering {
    if has_token(a) && has_token(b) {
        if token_digits(a) != token_digits(b) {
            lex_cmp(token_digits(a), token_digits(b))
        } else {
            lex_cmp(base_of(a), base_of(b))
        }
    } else if has_token(a) {
        core::cmp::Ordering::Greater
    } else if has_token(b) {
        core::cmp::Ordering::Less
    } else {
        lex_cmp(a, b)
    }
}

/// The unique base identifier of an identifier.
#[derive(Debug, Clone, Eq, Hash)]
pub struct Root {
    name: String,
}

impl View for Root {
    type V = Seq<char>;

    closed spec fn view(&self) -> Seq<char> {
        self.name@
    }
}

impl PartialEq for Root {
    fn eq(&self, other: &Root) -> (r: bool) {
        self.name == other.name
    }
}

impl vstd::std_specs::cmp::PartialEqSpecImpl for Root {
    open spec fn obeys_eq_spec() -> bool {
        true
    }

    open spec fn eq_spec(&self, other: &Root) -> bool {
        self@ == other@
    }
}

impl Root {
    /// Every root that a constructor gives is a segment.
    pub open spec fn wf(&self) -> bool {
        is_segment(self@)
    }

    /// The root named `value` as it stands: no token is added. This is how a
    /// root written in an identifier string is read back.
    pub fn new(value: &str) -> (r: Result<Root, ErnError>)
        ensures
            r is Ok <==> is_segment(value@),
            r matches Ok(root) ==> root@ == value@ && root.wf(),
            r matches Err(e) ==> segment_error(value@, Component::Root) == Some(e),
    {
        match check_segment(value, Component::Root) {
            Some(e) => Err(e),
            None => Ok(Root { name: value.to_owned() }),
        }
    }

    /// The root's full name, which orders roots.
    pub fn name(&self) -> (r: &str)
        ensures
            r@ == self@,
    {
        self.name.as_str()
    }

    pub fn as_str(&self) -> (r: &str)
        ensures
            r@ == self@,
    {
        self.name.as_str()
    }

    /// The root's name as a new string.
    pub fn to_string(&self) -> (r: String)
        ensures
            r@ == self@,
    {
        self.name.clone()
    }

    /// Compares the names of this root and `other` by the order of root names.
    pub fn cmp_name(&self, other: &Root) -> (r: core::cmp::Ordering)
        ensures
            r == root_cmp(self@, other@),
    {
        let a = self.name.as_str();
        let b = other.name.as_str();
        match (split_token(a), split_token(b)) {
            (Some((base_a, digits_a)), Some((base_b, digits_b))) => {
                match compare_text(digits_a, digits_b) {
                    core::cmp::Ordering::Equal => compare_text(base_a, base_b),
                    o => o,
                }
            },
            (Some(_), None) => core::cmp::Ordering::Greater,
            (None, Some(_)) => core::cmp::Ordering::Less,
            (None, None) => compare_text(a, b),
        }
    }

    /// A copy of this root, with the same name.
    pub(crate) fn duplicate(&self) -> (r: Root)
        ensures
            r@ == self@,
    {
        Root { name: self.name.clone() }
    }
}

impl std::str::FromStr for Root {
    type Err = ErnError;

    fn from_str(s: &str) -> (r: Result<Root, ErnError>)
        ensures
            r is Ok <==> is_segment(s@),
            r matches Ok(root) ==> root@ == s@ && root.wf(),
            r matches Err(e) ==> segment_error(s@, Component::Root) == Some(e),
    {
        Root::new(s)
    }
}

/// Cuts a name that ends in `_` and a token's digits into the part before and
/// the digits.
fn split_token<'a>(n: &'a str) -> (r: Option<(&'a str, &'a str)>)
    ensures
        r is Some <==> has_token(n@),
        r matches Some((base, digits)) ==> base@ == base_of(n@) && digits@ == token_digits(n@),
{
    let len = n.unicode_len();
    if len <= 20 {
        return None;
    }
    if n.get_char(len - 21) != '_' {
        return None;
    }
    let mut i: usize = len - 20;
    while i < len
        invariant
            len == n@.len(),
            len > 20,
            len - 20 <= i <= len,
            forall|j: int| len - 20 <= j < i ==> '0' <= #[trigger] n@[j] <= '9',
        decreases len - i,
    {
        let c = n.get_char(i);
        if !('0' <= c && c <= '9') {
            return None;
        }
        i = i + 1;
    }
    let base = n.substring_char(0, len - 21);
    let digits = n.substring_char(len - 20, len);
    assert(digits@ =~= token_digits(n@));
    assert(base@ =~= base_of(n@));
    Some((base, digits))
}

/// Appends the last `w` decimal digits of `t` to `s`.
fn push_decimal(s: &mut String, t: u64, w: usize)
    ensures
        final(s)@ == old(s)@ + decimal(t as nat, w as nat),
    decreases w,
{
    if w == 0 {
        assert(old(s)@ + decimal(t as nat, 0) =~= old(s)@);
    } else {
        push_decimal(s, t / 10, w - 1);
        let d = t % 10;
        let c = if d == 0 {
            '0'
        } else if d == 1 {
            '1'
        } else if d == 2 {
            '2'
        } else if d == 3 {
            '3'
        } else if d == 4 {
            '4'
        } else if d == 5 {
            '5'
        } else if d == 6 {
            '6'
        } else if d == 7 {
            '7'
        } else if d == 8 {
            '8'
        } else {
            '9'
        };
        push_char(s, c);
        assert(final(s)@ =~= old(s)@ + decimal(t as nat, w as nat));
    }
}

/// Issues the tokens of generated roots: each one is larger than every token
/// issued before it, and no smaller than the clock reading it was given.
pub struct RootGenerator {
    last: u64,
}

impl RootGenerator {
    /// The last token issued (0 before the first).
    pub closed spec fn last_token(&self) -> u64 {
        self.last
    }

    /// A generator that has issued nothing.
    pub fn new() -> (r: RootGenerator)
        ensures
            r.last_token() == 0,
    {
        RootGenerator { last: 0 }
    }

    /// Whether another token can still be issued.
    pub fn can_issue(&self) -> (r: bool)
        ensures
            r == (self.last_token() < u64::MAX),
    {
        self.last < u64::MAX
    }

    /// The next token for a clock reading `now`: the reading itself when it is
    /// past every token issued so far, else one more than the last.
    pub fn next_token(&mut self, now: u64) -> (t: u64)
        requires
            old(self).last_token() < u64::MAX,
        ensures
            t == token_after(old(self).last_token(), now),
            t > old(self).last_token(),
            final(self).last_token() == t,
    {
        let t = if now > self.last {
            now
        } else {
            self.last + 1
        };
        self.last = t;
        t
    }

    /// A new root from `base` and the clock reading `now`: the base, which
    /// must be a segment, `_`, and the next token's digits. No token is spent
    /// when the base is refused.
    pub fn generate(&mut self, base: &str, now: u64) -> (r: Result<Root, ErnError>)
        requires
            old(self).last_token() < u64::MAX,
        ensures
            r is Ok <==> is_segment(base@),
            r matches Err(e) ==> segment_error(base@, Component::Root) == Some(e)
                && final(self).last_token() == old(self).last_token(),
            r matches Ok(root) ==> {
                &&& final(self).last_token() == token_after(old(self).last_token(), now)
                &&& final(self).last_token() > old(self).last_token()
                &&& final(self).last_token() >= now
                &&& root@ == generated_name(final(self).last_token(), base@)
                &&& root.wf()
            },
    {
        match check_segment(base, Component::Root) {
            Some(e) => Err(e),
            None => {
                let t = self.next_token(now);
                let mut name = String::new();
                append_str(&mut name, base);
                push_char(&mut name, '_');
                push_decimal(&mut name, t, TOKEN_DIGITS);
                proof {
                    lemma_decimal_digits(t as nat, TOKEN_DIGITS as nat);
                    let d = decimal(t as nat, TOKEN_DIGITS as nat);
                    let m = base@.len() as int;
                    assert(name@ =~= generated_name(t, base@));
                    assert(!name@.contains(':')) by {
                        if name@.contains(':') {
                            let k = choose|k: int| 0 <= k < name@.len() && name@[k] == ':';
                            if k < m {
                                assert(base@[k] == ':');
                            } else if k > m {
                                assert(d[k - m - 1] == ':');
                            }
                        }
                    }
                    assert(!name@.contains('/')) by {
                        if name@.contains('/') {
                            let k = choose|k: int| 0 <= k < name@.len() && name@[k] == '/';
                            if k < m {
                                assert(base@[k] == '/');
                            } else if k > m {
                                assert(d[k - m - 1] == '/');
                            }
                        }
                    }
                }
                Ok(Root { name })
            },
        }
    }
}

/// The digits of a token are `w` characters, each a decimal digit.
pub proof fn lemma_decimal_digits(t: nat, w: nat)
    ensures
        decimal(t, w).len() == w,
        forall|i: int| 0 <= i < w ==> '0' <= #[trigger] decimal(t, w)[i] <= '9',
    decreases w,
{
    if w > 0 {
        lemma_decimal_digits(t / 10, (w - 1) as nat);
    }
}

/// Digits of distinct numbers under the digits' bound differ, in the order of
/// the numbers, whatever follows them.
pub proof fn lemma_decimal_order(t1: nat, t2: nat, w: nat, x: Seq<char>, y: Seq<char>)
    requires
        t1 < t2 < pow10(w),
    ensures
        lex_lt(decimal(t1, w) + x, decimal(t2, w) + y),
    decreases w,
{
    let q1 = t1 / 10;
    let q2 = t2 / 10;
    let d1 = t1 % 10;
    let d2 = t2 % 10;
    assert(w > 0);
    let v = (w - 1) as nat;
    assert(pow10(w) == 10 * pow10(v));
    assert(q1 <= q2) by (nonlinear_arith)
        requires t1 < t2, q1 == t1 / 10, q2 == t2 / 10;
    assert(q2 < pow10(v)) by (nonlinear_arith)
        requires t2 < 10 * pow10(v), q2 == t2 / 10;
    assert(decimal(t1, w) + x =~= decimal(q1, v) + (seq![digit_char(d1)] + x));
    assert(decimal(t2, w) + y =~= decimal(q2, v) + (seq![digit_char(d2)] + y));
    if q1 < q2 {
        lemma_decimal_order(q1, q2, v, seq![digit_char(d1)] + x, seq![digit_char(d2)] + y);
    } else {
        assert(d1 < d2) by (nonlinear_arith)
            requires t1 < t2, q1 == t1 / 10, q2 == t2 / 10, q1 == q2, d1 == t1 % 10, d2 == t2 % 10;
        lemma_lex_lt_common_prefix(decimal(q1, v), seq![digit_char(d1)] + x, seq![digit_char(d2)] + y);
        assert(digit_char(d1) < digit_char(d2));
    }
}

/// `u64` values fit in the token's digits.
pub proof fn lemma_token_fits(t: u64)
    ensures
        (t as nat) < pow10(TOKEN_DIGITS as nat),
{
    reveal_with_fuel(pow10, 21);
    assert(pow10(TOKEN_DIGITS as nat) == 100000000000000000000nat);
}

/// A generated name ends in its token's digits, after its base name.
pub proof fn lemma_generated_has_token(t: u64, b: Seq<char>)
    ensures
        has_token(generated_name(t, b)),
        token_digits(generated_name(t, b)) == decimal(t as nat, TOKEN_DIGITS as nat),
        base_of(generated_name(t, b)) == b,
{
    let n = generated_name(t, b);
    let d = decimal(t as nat, TOKEN_DIGITS as nat);
    lemma_decimal_digits(t as nat, TOKEN_DIGITS as nat);
    assert(n[n.len() - 21] == '_');
    assert forall|i: int| n.len() - 20 <= i < n.len() implies '0' <= #[trigger] n[i] <= '9' by {
        assert(n[i] == d[i - (b.len() + 1)]);
    }
    assert(token_digits(n) =~= d);
    assert(base_of(n) =~= b);
}

/// A root generated from a smaller token orders before one generated from a
/// larger token, whatever the two base names; so their names differ.
pub proof fn lemma_generated_order(t1: u64, t2: u64, b1: Seq<char>, b2: Seq<char>)
    requires
        t1 < t2,
    ensures
        root_cmp(generated_name(t1, b1), generated_name(t2, b2)) == core::cmp::Ordering::Less,
        root_cmp(generated_name(t2, b2), generated_name(t1, b1)) == core::cmp::Ordering::Greater,
        generated_name(t1, b1) != generated_name(t2, b2),
{
    lemma_token_fits(t2);
    let w = TOKEN_DIGITS as nat;
    let d1 = decimal(t1 as nat, w);
    let d2 = decimal(t2 as nat, w);
    lemma_generated_has_token(t1, b1);
    lemma_generated_has_token(t2, b2);
    lemma_decimal_order(t1 as nat, t2 as nat, w, Seq::empty(), Seq::empty());
    assert(d1 + Seq::<char>::empty() =~= d1);
    assert(d2 + Seq::<char>::empty() =~= d2);
    crate::text::lemma_lex_lt_irreflexive(d1);
    crate::text::lemma_lex_lt_asymmetric(d1, d2);
}

/// Two roots generated one after the other by one generator order by
/// creation, whatever their base names and clock readings, and differ.
pub proof fn lemma_successive_roots_order(last: u64, now1: u64, now2: u64, b1: Seq<char>, b2: Seq<char>)
    requires
        last < u64::MAX,
        token_after(last, now1) < u64::MAX,
    ensures
        token_after(last, now1) < token_after(token_after(last, now1), now2),
        root_cmp(
            generated_name(token_after(last, now1), b1),
            generated_name(token_after(token_after(last, now1), now2), b2),
        ) == core::cmp::Ordering::Less,
        generated_name(token_after(last, now1), b1) != generated_name(
            token_after(token_after(last, now1), now2),
            b2,
        ),
{
    lemma_generated_order(token_after(last, now1), token_after(token_after(last, now1), now2), b1, b2);
}

} // verus!
