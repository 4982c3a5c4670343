//! The single-field components of an identifier: domain, category, account
//! and path part.
use vstd::prelude::*;
use crate::error::{Component, ErnError};
use crate::text::{check_presence, check_segment, is_segment, presence_error, segment_error};

verus! {

/// The text of the default domain, `acton`.
pub open spec fn default_domain_text() -> Seq<char> {
    seq!['a', 'c', 't', 'o', 'n']
}

/// The text of the default category, `system`.
pub open spec fn default_category_text() -> Seq<char> {
    seq!['s', 'y', 's', 't', 'e', 'm']
}

/// The text of the default account, `default`.
pub open spec fn default_account_text() -> Seq<char> {
    seq!['d', 'e', 'f', 'a', 'u', 'l', 't']
}

/// The namespace an identifier lives in: non-empty text.
#[derive(Debug, Clone, Eq, Hash)]
pub struct Domain(String);

/// The kind of resource an identifier names: non-empty text.
#[derive(Debug, Clone, Eq, Hash)]
pub struct Category(String);

/// The account that owns the resource: non-empty text.
#[derive(Debug, Clone, Eq, Hash)]
pub struct Account(String);

/// One level of an identifier's path: non-empty text without `:` or `/`.
#[derive(Debug, Clone, Eq, Hash)]
pub struct Part(String);

impl View for Domain {
    type V = Seq<char>;

    closed spec fn view(&self) -> Seq<char> {
        self.0@
    }
}

impl View for Category {
    type V = Seq<char>;

    closed spec fn view(&self) -> Seq<char> {
        self.0@
    }
}

impl View for Account {
    type V = Seq<char>;

    closed spec fn view(&self) -> Seq<char> {
        self.0@
    }
}

impl View for Part {
    type V = Seq<char>;

    closed spec fn view(&self) -> Seq<char> {
        self.0@
    }
}

impl PartialEq for Domain {
    fn eq(&self, other: &Domain) -> (r: bool) {
        self.0 == other.0
    }
}

impl vstd::std_specs::cmp::PartialEqSpecImpl for Domain {
    open spec fn obeys_eq_spec() -> bool {
        true
    }

    open spec fn eq_spec(&self, other: &Domain) -> bool {
        self@ == other@
    }
}

impl PartialEq for Category {
    fn eq(&self, other: &Category) -> (r: bool) {
        self.0 == other.0
    }
}

impl vstd::std_specs::cmp::PartialEqSpecImpl for Category {
    open spec fn obeys_eq_spec() -> bool {
        true
    }

    open spec fn eq_spec(&self, other: &Category) -> bool {
        self@ == other@
    }
}

impl PartialEq for Account {
    fn eq(&self, other: &Account) -> (r: bool) {
        self.0 == other.0
    }
}

impl vstd::std_specs::cmp::PartialEqSpecImpl for Account {
    open spec fn obeys_eq_spec() -> bool {
        true
    }

    open spec fn eq_spec(&self, other: &Account) -> bool {
        self@ == other@
    }
}

impl PartialEq for Part {
    fn eq(&self, other: &Part) -> (r: bool) {
        self.0 == other.0
    }
}

impl vstd::std_specs::cmp::PartialEqSpecImpl for Part {
    open spec fn obeys_eq_spec() -> bool {
        true
    }

    open spec fn eq_spec(&self, other: &Part) -> bool {
        self@ == other@
    }
}

impl Domain {
    /// Every domain that a constructor gives is non-empty.
    pub open spec fn wf(&self) -> bool {
        self@.len() > 0
    }

    /// A domain holding `value`; empty text is refused.
    pub fn new(value: &str) -> (r: Result<Domain, ErnError>)
        ensures
            r is Ok <==> presence_error(value@, Component::Domain) is None,
            r matches Ok(d) ==> d@ == value@ && d.wf(),
            r matches Err(e) ==> presence_error(value@, Component::Domain) == Some(e),
    {
        match check_presence(value, Component::Domain) {
            Some(e) => Err(e),
            None => Ok(Domain(value.to_owned())),
        }
    }

    pub fn as_str(&self) -> (r: &str)
        ensures
            r@ == self@,
    {
        self.0.as_str()
    }

    /// A copy of this value, with the same text.
    pub(crate) fn duplicate(&self) -> (r: Domain)
        ensures
            r@ == self@,
    {
        Domain(self.0.clone())
    }

    pub fn into_owned(self) -> (r: Domain)
        ensures
            r@ == self@,
    {
        Domain(self.0)
    }

    /// The domain's text as a new string.
    pub fn to_string(&self) -> (r: String)
        ensures
            r@ == self@,
    {
        self.0.clone()
    }
}

impl Default for Domain {
    fn default() -> (r: Domain)
        ensures
            r@ == default_domain_text(),
    {
        let r = Domain("acton".to_owned());
        proof {
            reveal_strlit("acton");
            assert(r@ =~= default_domain_text());
        }
        r
    }
}

impl std::str::FromStr for Domain {
    type Err = ErnError;

    fn from_str(s: &str) -> (r: Result<Domain, ErnError>)
        ensures
            r is Ok <==> presence_error(s@, Component::Domain) is None,
            r matches Ok(d) ==> d@ == s@ && d.wf(),
            r matches Err(e) ==> presence_error(s@, Component::Domain) == Some(e),
    {
        Domain::new(s)
    }
}

impl Category {
    /// Every category that a constructor gives is non-empty.
    pub open spec fn wf(&self) -> bool {
        self@.len() > 0
    }

    /// A category holding `value`; empty text is refused.
    pub fn new(value: &str) -> (r: Result<Category, ErnError>)
        ensures
            r is Ok <==> presence_error(value@, Component::Category) is None,
            r matches Ok(d) ==> d@ == value@ && d.wf(),
            r matches Err(e) ==> presence_error(value@, Component::Category) == Some(e),
    {
        match check_presence(value, Component::Category) {
            Some(e) => Err(e),
            None => Ok(Category(value.to_owned())),
        }
    }

    pub fn as_str(&self) -> (r: &str)
        ensures
            r@ == self@,
    {
        self.0.as_str()
    }

    /// A copy of this value, with the same text.
    pub(crate) fn duplicate(&self) -> (r: Category)
        ensures
            r@ == self@,
    {
        Category(self.0.clone())
    }

    pub fn into_owned(self) -> (r: Category)
        ensures
            r@ == self@,
    {
        Category(self.0)
    }

    /// The category's text as a new string.
    pub fn to_string(&self) -> (r: String)
        ensures
            r@ == self@,
    {
        self.0.clone()
    }
}

impl Default for Category {
    fn default() -> (r: Category)
        ensures
            r@ == default_category_text(),
    {
        let r = Category("system".to_owned());
        proof {
            reveal_strlit("system");
            assert(r@ =~= default_category_text());
        }
        r
    }
}

impl std::str::FromStr for Category {
    type Err = ErnError;

    fn from_str(s: &str) -> (r: Result<Category, ErnError>)
        ensures
            r is Ok <==> presence_error(s@, Component::Category) is None,
            r matches Ok(d) ==> d@ == s@ && d.wf(),
            r matches Err(e) ==> presence_error(s@, Component::Category) == Some(e),
    {
        Category::new(s)
    }
}

impl Account {
    /// Every account that a constructor gives is non-empty.
    pub open spec fn wf(&self) -> bool {
        self@.len() > 0
    }

    /// An account holding `value`; empty text is refused.
    pub fn new(value: &str) -> (r: Result<Account, ErnError>)
        ensures
            r is Ok <==> presence_error(value@, Component::Account) is None,
            r matches Ok(d) ==> d@ == value@ && d.wf(),
            r matches Err(e) ==> presence_error(value@, Component::Account) == Some(e),
    {
        match check_presence(value, Component::Account) {
            Some(e) => Err(e),
            None => Ok(Account(value.to_owned())),
        }
    }

    pub fn as_str(&self) -> (r: &str)
        ensures
            r@ == self@,
    {
        self.0.as_str()
    }

    /// A copy of this value, with the same text.
    pub(crate) fn duplicate(&self) -> (r: Account)
        ensures
            r@ == self@,
    {
        Account(self.0.clone())
    }

    pub fn into_owned(self) -> (r: Account)
        ensures
            r@ == self@,
    {
        Account(self.0)
    }

    /// The account's text as a new string.
    pub fn to_string(&self) -> (r: String)
        ensures
            r@ == self@,
    {
        self.0.clone()
    }
}

impl Default for Account {
    fn default() -> (r: Account)
        ensures
            r@ == default_account_text(),
    {
        let r = Account("default".to_owned());
        proof {
            reveal_strlit("default");
            assert(r@ =~= default_account_text());
        }
        r
    }
}

impl std::str::FromStr for Account {
    type Err = ErnError;

    fn from_str(s: &str) -> (r: Result<Account, ErnError>)
        ensures
            r is Ok <==> presence_error(s@, Component::Account) is None,
            r matches Ok(d) ==> d@ == s@ && d.wf(),
            r matches Err(e) ==> presence_error(s@, Component::Account) == Some(e),
    {
        Account::new(s)
    }
}

impl Part {
    /// Every part that a constructor gives is a segment.
    pub open spec fn wf(&self) -> bool {
        is_segment(self@)
    }

    /// A part holding `value`; text with `:` or `/` is a format error, empty
    /// text an empty-value error.
    pub fn new(value: &str) -> (r: Result<Part, ErnError>)
        ensures
            r is Ok <==> is_segment(value@),
            r matches Ok(p) ==> p@ == value@ && p.wf(),
            r matches Err(e) ==> segment_error(value@, Component::Part) == Some(e),
    {
        match check_segment(value, Component::Part) {
            Some(e) => Err(e),
            None => Ok(Part(value.to_owned())),
        }
    }

    pub fn as_str(&self) -> (r: &str)
        ensures
            r@ == self@,
    {
        self.0.as_str()
    }

    /// A copy of this value, with the same text.
    pub(crate) fn duplicate(&self) -> (r: Part)
        ensures
            r@ == self@,
    {
        Part(self.0.clone())
    }

    pub fn into_owned(self) -> (r: Part)
        ensures
            r@ == self@,
    {
        Part(self.0)
    }

    /// The part's text as a new string.
    pub fn to_string(&self) -> (r: String)
        ensures
            r@ == self@,
    {
        self.0.clone()
    }
}

impl std::str::FromStr for Part {
    type Err = ErnError;

    fn from_str(s: &str) -> (r: Result<Part, ErnError>)
        ensures
            r is Ok <==> is_segment(s@),
            r matches Ok(p) ==> p@ == s@ && p.wf(),
            r matches Err(e) ==> segment_error(s@, Component::Part) == Some(e),
    {
        Part::new(s)
    }
}

impl From<Domain> for String {
    fn from(v: Domain) -> (r: String)
        ensures
            r@ == v@,
    {
        v.0
    }
}

impl vstd::std_specs::convert::FromSpecImpl<Domain> for String {
    open spec fn obeys_from_spec() -> bool {
        true
    }

    closed spec fn from_spec(v: Domain) -> String {
        v.0
    }
}

impl From<Category> for String {
    fn from(v: Category) -> (r: String)
        ensures
            r@ == v@,
    {
        v.0
    }
}

impl vstd::std_specs::convert::FromSpecImpl<Category> for String {
    open spec fn obeys_from_spec() -> bool {
        true
    }

    closed spec fn from_spec(v: Category) -> String {
        v.0
    }
}

impl From<Account> for String {
    fn from(v: Account) -> (r: String)
        ensures
            r@ == v@,
    {
        v.0
    }
}

impl vstd::std_specs::convert::FromSpecImpl<Account> for String {
    open spec fn obeys_from_spec() -> bool {
        true
    }

    closed spec fn from_spec(v: Account) -> String {
        v.0
    }
}

impl From<Part> for String {
    fn from(v: Part) -> (r: String)
        ensures
            r@ == v@,
    {
        v.0
    }
}

impl vstd::std_specs::convert::FromSpecImpl<Part> for String {
    open spec fn obeys_from_spec() -> bool {
        true
    }

    closed spec fn from_spec(v: Part) -> String {
        v.0
    }
}

} // verus!
