//! Short textual identifiers.

use vstd::prelude::*;

verus! {

/// A short country or region code, such as `"JP"`.
#[derive(Debug, Clone, PartialEq, Eq)]
pub struct CountryCode {
    text: String,
}

impl DeepView for CountryCode {
    type V = Seq<char>;

    /// The characters of the code.
    closed spec fn deep_view(&self) -> Seq<char> {
        self.text@
    }
}

impl CountryCode {
    /// The code with the text `text`, taken as it is.
    pub fn from_str(text: &str) -> (r: Self)
        ensures
            r.deep_view() == text@,
    {
        CountryCode { text: text.to_owned() }
    }

    /// The text of the code.
    pub fn as_str(&self) -> (r: &str)
        ensures
            r@ == self.deep_view(),
    {
        self.text.as_str()
    }
}

/// The display name of a user.
#[derive(Debug, Clone, PartialEq, Eq)]
pub struct Username {
    text: String,
}

impl DeepView for Username {
    type V = Seq<char>;

    /// The characters of the name.
    closed spec fn deep_view(&self) -> Seq<char> {
        self.text@
    }
}

impl Username {
    /// The name with the text `text`, taken as it is.
    pub fn from_str(text: &str) -> (r: Self)
        ensures
            r.deep_view() == text@,
    {
        Username { text: text.to_owned() }
    }

    /// The text of the name.
    pub fn as_str(&self) -> (r: &str)
        ensures
            r@ == self.deep_view(),
    {
        self.text.as_str()
    }
}

} // verus!
