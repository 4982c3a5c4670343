use vstd::prelude::*;

verus! {

/// The component of an identifier that a validation error is about.
#[derive(Debug, Clone, Copy, PartialEq, Eq, Structural)]
pub enum Component {
    Domain,
    Category,
    Account,
    Root,
    Part,
}

/// Why a component or an identifier string was rejected.
#[derive(Debug, Clone, Copy, PartialEq, Eq, Structural)]
pub enum ErnError {
    /// The component's text was empty.
    EmptyValue(Component),
    /// A segment held a reserved delimiter (`:` or `/`), or a string did not
    /// have the `ern:` prefix and five colon-separated fields.
    InvalidFormat,
}

/// The name of a component, as diagnostics show it.
pub open spec fn component_name(c: Component) -> Seq<char> {
    match c {
        Component::Domain => seq!['D', 'o', 'm', 'a', 'i', 'n'],
        Component::Category => seq!['C', 'a', 't', 'e', 'g', 'o', 'r', 'y'],
        Component::Account => seq!['A', 'c', 'c', 'o', 'u', 'n', 't'],
        Component::Root => seq!['R', 'o', 'o', 't'],
        Component::Part => seq!['P', 'a', 'r', 't'],
    }
}

impl Component {
    /// The component's name, for diagnostics.
    pub fn name(&self) -> (r: &'static str)
        ensures
            r@ == component_name(*self),
    {
        proof {
            reveal_strlit("Domain");
            reveal_strlit("Category");
            reveal_strlit("Account");
            reveal_strlit("Root");
            reveal_strlit("Part");
        }
        match self {
            Component::Domain => "Domain",
            Component::Category => "Category",
            Component::Account => "Account",
            Component::Root => "Root",
            Component::Part => "Part",
        }
    }
}

} // verus!
