//! The identifier itself: domain, category, account, root and path.
use vstd::prelude::*;
use crate::error::{Component, ErnError};
use crate::parts::{is_prefix, parts_error, str_texts, Parts};
use crate::root::{generated_name, lemma_generated_order, root_cmp, token_after, Root, RootGenerator};
use crate::segment::{
    default_account_text, default_category_text, default_domain_text, Account, Category, Domain,
    Part,
};
use crate::text::{
    append_str, is_segment, join_slash, presence_error, push_char,
    segment_error,
};

verus! {

/// The value of an identifier: the text of each component, and of each part
/// of its path in order.
pub struct ErnView {
    pub domain: Seq<char>,
    pub category: Seq<char>,
    pub account: Seq<char>,
    pub root: Seq<char>,
    pub parts: Seq<Seq<char>>,
}

/// The literal that starts every identifier string, `ern:`.
pub open spec fn prefix_text() -> Seq<char> {
    seq!['e', 'r', 'n', ':']
}

/// The base name of the root that identifiers built from defaults get, `root`.
pub open spec fn default_root_base() -> Seq<char> {
    seq!['r', 'o', 'o', 't']
}

/// The canonical string of an identifier:
/// `ern:<domain>:<category>:<account>:<root>`, then `/` and the parts joined
/// with `/` when there are parts.
pub open spec fn format_ern(v: ErnView) -> Seq<char> {
    let head = prefix_text() + v.domain + seq![':'] + v.category + seq![':'] + v.account + seq![
        ':',
    ] + v.root;
    if v.parts.len() == 0 {
        head
    } else {
        head + seq!['/'] + join_slash(v.parts)
    }
}

/// `c` lies strictly below `p`: the same domain, category, account and root,
/// and `p`'s path a strict prefix of `c`'s.
pub open spec fn child_of(c: ErnView, p: ErnView) -> bool {
    &&& c.domain == p.domain
    &&& c.category == p.category
    &&& c.account == p.account
    &&& c.root == p.root
    &&& p.parts.len() < c.parts.len()
    &&& is_prefix(p.parts, c.parts)
}

/// An Entity Resource Name.
#[derive(Debug, Clone, Eq, Hash)]
pub struct Ern {
    pub domain: Domain,
    pub category: Category,
    pub account: Account,
    pub root: Root,
    pub parts: Parts,
}

impl View for Ern {
    type V = ErnView;

    open spec fn view(&self) -> ErnView {
        ErnView {
            domain: self.domain@,
            category: self.category@,
            account: self.account@,
            root: self.root@,
            parts: self.parts@,
        }
    }
}

impl PartialEq for Ern {
    fn eq(&self, other: &Ern) -> (r: bool) {
        let r = self.domain == other.domain && self.category == other.category && self.account
            == other.account && self.root == other.root && self.parts == other.parts;
        proof {
            if r {
                assert(self@ == other@);
            }
        }
        r
    }
}

impl vstd::std_specs::cmp::PartialEqSpecImpl for Ern {
    open spec fn obeys_eq_spec() -> bool {
        true
    }

    open spec fn eq_spec(&self, other: &Ern) -> bool {
        self@ == other@
    }
}

/// How two identifiers compare with `<`: by the order of their root names
/// (see `Ern::cmp_by_root`). Where the roots tie, equal identifiers are equal
/// and others unordered, so that `<`, `==` and `>` never disagree.
pub open spec fn ern_partial_cmp(a: ErnView, b: ErnView) -> Option<core::cmp::Ordering> {
    if root_cmp(a.root, b.root) != core::cmp::Ordering::Equal {
        Some(root_cmp(a.root, b.root))
    } else if a == b {
        Some(core::cmp::Ordering::Equal)
    } else {
        None
    }
}

impl PartialOrd for Ern {
    fn partial_cmp(&self, other: &Ern) -> (r: Option<core::cmp::Ordering>) {
        match self.root.cmp_name(&other.root) {
            core::cmp::Ordering::Equal => {
                if self == other {
                    Some(core::cmp::Ordering::Equal)
                } else {
                    None
                }
            },
            o => Some(o),
        }
    }
}

impl vstd::std_specs::cmp::PartialOrdSpecImpl for Ern {
    open spec fn obeys_partial_cmp_spec() -> bool {
        true
    }

    open spec fn partial_cmp_spec(&self, other: &Ern) -> Option<core::cmp::Ordering> {
        ern_partial_cmp(self@, other@)
    }
}

impl Ern {
    /// Every component is valid.
    pub open spec fn wf(&self) -> bool {
        &&& self.domain.wf()
        &&& self.category.wf()
        &&& self.account.wf()
        &&& self.root.wf()
        &&& self.parts.wf()
    }

    /// The order of identifiers: by their roots' names alone, whatever their
    /// other components.
    pub fn cmp_by_root(&self, other: &Ern) -> (r: core::cmp::Ordering)
        ensures
            r == root_cmp(self@.root, other@.root),
    {
        self.root.cmp_name(&other.root)
    }

    /// The identifier made of the given components.
    pub fn new(domain: Domain, category: Category, account: Account, root: Root, parts: Parts) -> (r: Ern)
        ensures
            r@ == (ErnView {
                domain: domain@,
                category: category@,
                account: account@,
                root: root@,
                parts: parts@,
            }),
    {
        Ern { domain, category, account, root, parts }
    }

    /// The identifier with `root` and every other component at its default.
    fn from_root(root: Root) -> (r: Ern)
        ensures
            r@ == (ErnView {
                domain: default_domain_text(),
                category: default_category_text(),
                account: default_account_text(),
                root: root@,
                parts: Seq::empty(),
            }),
            root.wf() ==> r.wf(),
    {
        Ern {
            domain: Domain::default(),
            category: Category::default(),
            account: Account::default(),
            root,
            parts: Parts::default(),
        }
    }

    /// Generates the root that defaults give, from `now`.
    fn default_root(generator: &mut RootGenerator, now: u64) -> (r: Root)
        requires
            old(generator).last_token() < u64::MAX,
        ensures
            final(generator).last_token() == token_after(old(generator).last_token(), now),
            r@ == generated_name(final(generator).last_token(), default_root_base()),
            r.wf(),
    {
        let base = "root";
        proof {
            reveal_strlit("root");
            assert(base@ =~= default_root_base());
        }
        generator.generate(base, now).unwrap()
    }

    /// The identifier with every component at its default and a default root
    /// generated from `now`.
    pub fn with_defaults(generator: &mut RootGenerator, now: u64) -> (r: Ern)
        requires
            old(generator).last_token() < u64::MAX,
        ensures
            final(generator).last_token() == token_after(old(generator).last_token(), now),
            r@ == (ErnView {
                domain: default_domain_text(),
                category: default_category_text(),
                account: default_account_text(),
                root: generated_name(final(generator).last_token(), default_root_base()),
                parts: Seq::empty(),
            }),
            r.wf(),
    {
        Ern::from_root(Ern::default_root(generator, now))
    }

    /// An identifier with a root generated from `root` and `now`, and every
    /// other component at its default.
    pub fn with_root(root: &str, generator: &mut RootGenerator, now: u64) -> (r: Result<Ern, ErnError>)
        requires
            old(generator).last_token() < u64::MAX,
        ensures
            r is Ok <==> is_segment(root@),
            r matches Err(e) ==> segment_error(root@, Component::Root) == Some(e),
            r matches Ok(e) ==> {
                &&& final(generator).last_token() == token_after(old(generator).last_token(), now)
                &&& e@ == (ErnView {
                    domain: default_domain_text(),
                    category: default_category_text(),
                    account: default_account_text(),
                    root: generated_name(final(generator).last_token(), root@),
                    parts: Seq::empty(),
                })
                &&& e.wf()
            },
    {
        let root = generator.generate(root, now)?;
        Ok(Ern::from_root(root))
    }

    /// This identifier with a root generated from `new_root` and `now` in
    /// place of its own.
    pub fn with_new_root(&self, new_root: &str, generator: &mut RootGenerator, now: u64) -> (r: Result<Ern, ErnError>)
        requires
            old(generator).last_token() < u64::MAX,
        ensures
            r is Ok <==> is_segment(new_root@),
            r matches Err(e) ==> segment_error(new_root@, Component::Root) == Some(e),
            r matches Ok(e) ==> {
                &&& final(generator).last_token() == token_after(old(generator).last_token(), now)
                &&& e@ == (ErnView {
                    root: generated_name(final(generator).last_token(), new_root@),
                    ..self@
                })
                &&& self.wf() ==> e.wf()
            },
    {
        let root = generator.generate(new_root, now)?;
        Ok(Ern {
            domain: self.domain.duplicate(),
            category: self.category.duplicate(),
            account: self.account.duplicate(),
            root,
            parts: self.parts.duplicate(),
        })
    }

    /// An identifier in `domain`, with every other component at its default
    /// and a default root generated from `now`.
    pub fn with_domain(domain: &str, generator: &mut RootGenerator, now: u64) -> (r: Result<Ern, ErnError>)
        requires
            old(generator).last_token() < u64::MAX,
        ensures
            r is Ok <==> presence_error(domain@, Component::Domain) is None,
            r matches Err(e) ==> presence_error(domain@, Component::Domain) == Some(e),
            r matches Ok(e) ==> {
                &&& final(generator).last_token() == token_after(old(generator).last_token(), now)
                &&& e@ == (ErnView {
                    domain: domain@,
                    category: default_category_text(),
                    account: default_account_text(),
                    root: generated_name(final(generator).last_token(), default_root_base()),
                    parts: Seq::empty(),
                })
                &&& e.wf()
            },
    {
        let domain = Domain::new(domain)?;
        let root = Ern::default_root(generator, now);
        Ok(Ern {
            domain,
            category: Category::default(),
            account: Account::default(),
            root,
            parts: Parts::default(),
        })
    }

    /// An identifier in `category`, with every other component at its default
    /// and a default root generated from `now`.
    pub fn with_category(category: &str, generator: &mut RootGenerator, now: u64) -> (r: Result<Ern, ErnError>)
        requires
            old(generator).last_token() < u64::MAX,
        ensures
            r is Ok <==> presence_error(category@, Component::Category) is None,
            r matches Err(e) ==> presence_error(category@, Component::Category) == Some(e),
            r matches Ok(e) ==> {
                &&& final(generator).last_token() == token_after(old(generator).last_token(), now)
                &&& e@ == (ErnView {
                    domain: default_domain_text(),
                    category: category@,
                    account: default_account_text(),
                    root: generated_name(final(generator).last_token(), default_root_base()),
                    parts: Seq::empty(),
                })
                &&& e.wf()
            },
    {
        let category = Category::new(category)?;
        let root = Ern::default_root(generator, now);
        Ok(Ern {
            domain: Domain::default(),
            category,
            account: Account::default(),
            root,
            parts: Parts::default(),
        })
    }

    /// An identifier of `account`, with every other component at its default
    /// and a default root generated from `now`.
    pub fn with_account(account: &str, generator: &mut RootGenerator, now: u64) -> (r: Result<Ern, ErnError>)
        requires
            old(generator).last_token() < u64::MAX,
        ensures
            r is Ok <==> presence_error(account@, Component::Account) is None,
            r matches Err(e) ==> presence_error(account@, Component::Account) == Some(e),
            r matches Ok(e) ==> {
                &&& final(generator).last_token() == token_after(old(generator).last_token(), now)
                &&& e@ == (ErnView {
                    domain: default_domain_text(),
                    category: default_category_text(),
                    account: account@,
                    root: generated_name(final(generator).last_token(), default_root_base()),
                    parts: Seq::empty(),
                })
                &&& e.wf()
            },
    {
        let account = Account::new(account)?;
        let root = Ern::default_root(generator, now);
        Ok(Ern {
            domain: Domain::default(),
            category: Category::default(),
            account,
            root,
            parts: Parts::default(),
        })
    }

    /// This identifier with `part` appended to its path.
    pub fn add_part(&self, part: &str) -> (r: Result<Ern, ErnError>)
        ensures
            r is Ok <==> is_segment(part@),
            r matches Err(e) ==> segment_error(part@, Component::Part) == Some(e),
            r matches Ok(e) ==> {
                &&& e@ == (ErnView { parts: self@.parts.push(part@), ..self@ })
                &&& self.wf() ==> e.wf()
            },
    {
        let part = Part::new(part)?;
        let mut parts = self.parts.duplicate();
        parts.push(part);
        Ok(Ern {
            domain: self.domain.duplicate(),
            category: self.category.duplicate(),
            account: self.account.duplicate(),
            root: self.root.duplicate(),
            parts,
        })
    }

    /// This identifier with its path replaced by `parts`, in order. The first
    /// invalid part is reported, and nothing is replaced.
    pub fn with_parts(&self, parts: &[&str]) -> (r: Result<Ern, ErnError>)
        ensures
            r is Ok <==> parts_error(str_texts(parts@)) is None,
            r matches Err(e) ==> parts_error(str_texts(parts@)) == Some(e),
            r matches Ok(e) ==> {
                &&& e@ == (ErnView { parts: str_texts(parts@), ..self@ })
                &&& self.wf() ==> e.wf()
            },
    {
        let path = Parts::from_texts(parts)?;
        Ok(Ern {
            domain: self.domain.duplicate(),
            category: self.category.duplicate(),
            account: self.account.duplicate(),
            root: self.root.duplicate(),
            parts: path,
        })
    }

    /// Whether this identifier lies strictly below `other`: the same domain,
    /// category, account and root, and `other`'s path a strict prefix of this
    /// one's.
    pub fn is_child_of(&self, other: &Ern) -> (r: bool)
        ensures
            r == child_of(self@, other@),
    {
        self.domain == other.domain && self.category == other.category && self.account
            == other.account && self.root == other.root && other.parts.len() < self.parts.len()
            && self.parts.starts_with(&other.parts)
    }

    /// The identifier one level up: this one without the last part of its
    /// path, or `None` when the path is empty.
    pub fn parent(&self) -> (r: Option<Ern>)
        ensures
            r is None <==> self@.parts.len() == 0,
            r matches Some(p) ==> {
                &&& p@ == (ErnView { parts: self@.parts.drop_last(), ..self@ })
                &&& self.wf() ==> p.wf()
            },
    {
        if self.parts.is_empty() {
            None
        } else {
            Some(
                Ern {
                    domain: self.domain.duplicate(),
                    category: self.category.duplicate(),
                    account: self.account.duplicate(),
                    root: self.root.duplicate(),
                    parts: self.parts.without_last(),
                },
            )
        }
    }

    /// `child`'s path appended below this identifier: domain, category,
    /// account and root stay this identifier's, and those of `child` are
    /// dropped.
    pub fn combine(&self, child: &Ern) -> (r: Ern)
        ensures
            r@ == (ErnView { parts: self@.parts + child@.parts, ..self@ }),
            self.wf() && child.wf() ==> r.wf(),
    {
        Ern {
            domain: self.domain.duplicate(),
            category: self.category.duplicate(),
            account: self.account.duplicate(),
            root: self.root.duplicate(),
            parts: self.parts.concat(&child.parts),
        }
    }

    /// The canonical string of this identifier.
    pub fn to_string(&self) -> (r: String)
        ensures
            r@ == format_ern(self@),
    {
        let mut s = String::new();
        append_str(&mut s, "ern:");
        append_str(&mut s, self.domain.as_str());
        push_char(&mut s, ':');
        append_str(&mut s, self.category.as_str());
        push_char(&mut s, ':');
        append_str(&mut s, self.account.as_str());
        push_char(&mut s, ':');
        append_str(&mut s, self.root.as_str());
        proof {
            reveal_strlit("ern:");
            assert("ern:"@ =~= prefix_text());
        }
        if !self.parts.is_empty() {
            push_char(&mut s, '/');
            let path = self.parts.to_string();
            append_str(&mut s, path.as_str());
        }
        assert(s@ =~= format_ern(self@));
        s
    }
}


/// Identifiers whose roots were generated from increasing tokens order by
/// those tokens, whatever their base names and other components, and their
/// root names differ.
pub proof fn lemma_generated_roots_order(a: Ern, b: Ern, t1: u64, t2: u64, base1: Seq<char>, base2: Seq<char>)
    requires
        a@.root == generated_name(t1, base1),
        b@.root == generated_name(t2, base2),
        t1 < t2,
    ensures
        a@.root != b@.root,
        root_cmp(a@.root, b@.root) == core::cmp::Ordering::Less,
        ern_partial_cmp(a@, b@) == Some(core::cmp::Ordering::Less),
        ern_partial_cmp(b@, a@) == Some(core::cmp::Ordering::Greater),
{
    lemma_generated_order(t1, t2, base1, base2);
}

/// An identifier with a path lies below the identifier one level up from it.
pub proof fn lemma_child_of_parent(c: ErnView)
    requires
        c.parts.len() > 0,
    ensures
        child_of(c, ErnView { parts: c.parts.drop_last(), ..c }),
{
    assert(c.parts.take(c.parts.len() - 1) =~= c.parts.drop_last());
}

/// Appending a non-empty path below an identifier gives an identifier below
/// it, whose path starts with the first one's path.
pub proof fn lemma_combine_is_child(p: ErnView, child_parts: Seq<Seq<char>>)
    requires
        child_parts.len() > 0,
    ensures
        child_of(ErnView { parts: p.parts + child_parts, ..p }, p),
        (p.parts + child_parts).take(p.parts.len() as int) == p.parts,
{
    assert((p.parts + child_parts).take(p.parts.len() as int) =~= p.parts);
}

} // verus!
