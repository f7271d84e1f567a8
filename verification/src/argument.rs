pub mod legacy_argument;
pub mod parsable_argument;
pub mod validated;

use vstd::prelude::*;

verus! {

/// Mathematical model of an identification: the long name as a character
/// sequence.
pub enum IdView {
    Short(char),
    Long(Seq<char>),
    Both(char, Seq<char>),
}

impl IdView {
    /// Whether this identification answers to the given short name.
    pub open spec fn matches_short(self, name: char) -> bool {
        match self {
            IdView::Short(c) => c == name,
            IdView::Long(_) => false,
            IdView::Both(c, _) => c == name,
        }
    }

    /// Whether this identification answers to the given long name.
    pub open spec fn matches_long(self, name: Seq<char>) -> bool {
        match self {
            IdView::Short(_) => false,
            IdView::Long(s) => s == name,
            IdView::Both(_, s) => s == name,
        }
    }
}

/// Defines how an argument can be identified on the command line: by a
/// one-character short name, a long name, or both.
pub enum ArgumentIdentification {
    Short(char),
    Long(String),
    Both(char, String),
}

impl View for ArgumentIdentification {
    type V = IdView;

    open spec fn view(&self) -> IdView {
        match self {
            ArgumentIdentification::Short(c) => IdView::Short(*c),
            ArgumentIdentification::Long(s) => IdView::Long(s@),
            ArgumentIdentification::Both(c, s) => IdView::Both(*c, s@),
        }
    }
}

impl Clone for ArgumentIdentification {
    fn clone(&self) -> (r: Self)
        ensures
            r@ == self@,
    {
        match self {
            ArgumentIdentification::Short(c) => ArgumentIdentification::Short(*c),
            ArgumentIdentification::Long(s) => ArgumentIdentification::Long(s.clone()),
            ArgumentIdentification::Both(c, s) => ArgumentIdentification::Both(*c, s.clone()),
        }
    }
}

impl ArgumentIdentification {
    /// True exactly when this identification carries the given short name.
    pub fn is_by_short(&self, name: char) -> (r: bool)
        ensures
            r == self@.matches_short(name),
    {
        match self {
            ArgumentIdentification::Short(c) => *c == name,
            ArgumentIdentification::Long(_) => false,
            ArgumentIdentification::Both(c, _) => *c == name,
        }
    }

    /// True exactly when this identification carries the given long name.
    pub fn is_by_long(&self, name: &str) -> (r: bool)
        ensures
            r == self@.matches_long(name@),
    {
        match self {
            ArgumentIdentification::Short(_) => false,
            ArgumentIdentification::Long(s) => *s == name.to_owned(),
            ArgumentIdentification::Both(_, s) => *s == name.to_owned(),
        }
    }
}

} // verus!
