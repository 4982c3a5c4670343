//! Step-by-step construction of an identifier, each component checked as it
//! is supplied.
use vstd::prelude::*;
use crate::error::{Component, ErnError};
use crate::ern::{default_root_base, Ern, ErnView};
use crate::parts::Parts;
use crate::root::{generated_name, token_after, RootGenerator};
use crate::segment::{
    default_account_text, default_category_text, default_domain_text, Account, Category, Domain,
    Part,
};
use crate::text::{check_segment, is_segment, presence_error, segment_error};

verus! {

/// Collects the components of an identifier; what is not supplied keeps its
/// default. A step with an invalid component fails, and the builder is gone.
pub struct ErnBuilder {
    domain: Domain,
    category: Category,
    account: Account,
    root_base: Option<String>,
    parts: Parts,
}

impl ErnBuilder {
    pub closed spec fn domain_text(&self) -> Seq<char> {
        self.domain@
    }

    pub closed spec fn category_text(&self) -> Seq<char> {
        self.category@
    }

    pub closed spec fn account_text(&self) -> Seq<char> {
        self.account@
    }

    /// The base name that the root will be generated from.
    pub closed spec fn root_base_text(&self) -> Seq<char> {
        match self.root_base {
            Some(b) => b@,
            None => default_root_base(),
        }
    }

    pub closed spec fn parts_texts(&self) -> Seq<Seq<char>> {
        self.parts@
    }

    /// Every collected component is valid.
    pub closed spec fn wf(&self) -> bool {
        &&& self.domain.wf()
        &&& self.category.wf()
        &&& self.account.wf()
        &&& is_segment(self.root_base_text())
        &&& self.parts.wf()
    }

    /// A builder with every component at its default and an empty path.
    pub fn new() -> (r: ErnBuilder)
        ensures
            r.wf(),
            r.domain_text() == default_domain_text(),
            r.category_text() == default_category_text(),
            r.account_text() == default_account_text(),
            r.root_base_text() == default_root_base(),
            r.parts_texts() == Seq::<Seq<char>>::empty(),
    {
        let r = ErnBuilder {
            domain: Domain::default(),
            category: Category::default(),
            account: Account::default(),
            root_base: None,
            parts: Parts::default(),
        };
        assert(!default_root_base().contains(':')) by {
            if default_root_base().contains(':') {
                let k = choose|k: int| 0 <= k < 4 && default_root_base()[k] == ':';
            }
        }
        assert(!default_root_base().contains('/')) by {
            if default_root_base().contains('/') {
                let k = choose|k: int| 0 <= k < 4 && default_root_base()[k] == '/';
            }
        }
        r
    }

    /// Sets the domain.
    pub fn with_domain(self, value: &str) -> (r: Result<ErnBuilder, ErnError>)
        requires
            self.wf(),
        ensures
            r is Ok <==> presence_error(value@, Component::Domain) is None,
            r matches Err(e) ==> presence_error(value@, Component::Domain) == Some(e),
            r matches Ok(b) ==> b.wf() && b.domain_text() == value@ && b.category_text()
                == self.category_text() && b.account_text() == self.account_text()
                && b.root_base_text() == self.root_base_text() && b.parts_texts()
                == self.parts_texts(),
    {
        let domain = Domain::new(value)?;
        Ok(ErnBuilder { domain, ..self })
    }

    /// Sets the category.
    pub fn with_category(self, value: &str) -> (r: Result<ErnBuilder, ErnError>)
        requires
            self.wf(),
        ensures
            r is Ok <==> presence_error(value@, Component::Category) is None,
            r matches Err(e) ==> presence_error(value@, Component::Category) == Some(e),
            r matches Ok(b) ==> b.wf() && b.domain_text() == self.domain_text()
                && b.category_text() == value@ && b.account_text() == self.account_text()
                && b.root_base_text() == self.root_base_text() && b.parts_texts()
                == self.parts_texts(),
    {
        let category = Category::new(value)?;
        Ok(ErnBuilder { category, ..self })
    }

    /// Sets the account.
    pub fn with_account(self, value: &str) -> (r: Result<ErnBuilder, ErnError>)
        requires
            self.wf(),
        ensures
            r is Ok <==> presence_error(value@, Component::Account) is None,
            r matches Err(e) ==> presence_error(value@, Component::Account) == Some(e),
            r matches Ok(b) ==> b.wf() && b.domain_text() == self.domain_text()
                && b.category_text() == self.category_text() && b.account_text() == value@
                && b.root_base_text() == self.root_base_text() && b.parts_texts()
                == self.parts_texts(),
    {
        let account = Account::new(value)?;
        Ok(ErnBuilder { account, ..self })
    }

    /// Sets the base name that the root is generated from.
    pub fn with_root(self, base: &str) -> (r: Result<ErnBuilder, ErnError>)
        requires
            self.wf(),
        ensures
            r is Ok <==> is_segment(base@),
            r matches Err(e) ==> segment_error(base@, Component::Root) == Some(e),
            r matches Ok(b) ==> b.wf() && b.domain_text() == self.domain_text()
                && b.category_text() == self.category_text() && b.account_text()
                == self.account_text() && b.root_base_text() == base@ && b.parts_texts()
                == self.parts_texts(),
    {
        match check_segment(base, Component::Root) {
            Some(e) => Err(e),
            None => Ok(ErnBuilder { root_base: Some(base.to_owned()), ..self }),
        }
    }

    /// Appends a part to the path.
    pub fn add_part(self, part: &str) -> (r: Result<ErnBuilder, ErnError>)
        requires
            self.wf(),
        ensures
            r is Ok <==> is_segment(part@),
            r matches Err(e) ==> segment_error(part@, Component::Part) == Some(e),
            r matches Ok(b) ==> b.wf() && b.domain_text() == self.domain_text()
                && b.category_text() == self.category_text() && b.account_text()
                == self.account_text() && b.root_base_text() == self.root_base_text()
                && b.parts_texts() == self.parts_texts().push(part@),
    {
        let part = Part::new(part)?;
        let mut b = self;
        b.parts.push(part);
        Ok(b)
    }

    /// The identifier, with a root generated from the base name and `now`.
    pub fn build(self, generator: &mut RootGenerator, now: u64) -> (r: Ern)
        requires
            self.wf(),
            old(generator).last_token() < u64::MAX,
        ensures
            final(generator).last_token() == token_after(old(generator).last_token(), now),
            r@ == (ErnView {
                domain: self.domain_text(),
                category: self.category_text(),
                account: self.account_text(),
                root: generated_name(final(generator).last_token(), self.root_base_text()),
                parts: self.parts_texts(),
            }),
            r.wf(),
    {
        let root = match &self.root_base {
            Some(b) => generator.generate(b.as_str(), now).unwrap(),
            None => {
                let base = "root";
                proof {
                    reveal_strlit("root");
                    assert(base@ =~= default_root_base());
                }
                generator.generate(base, now).unwrap()
            },
        };
        Ern::new(self.domain, self.category, self.account, root, self.parts)
    }
}

} // verus!
