//! The closed vocabularies of the template language: tokens, specifiers,
//! modifiers, comparators and size units, each with its classifier from text.

use vstd::prelude::*;
use crate::text::spells;

verus! {

/// What a variable stands for.
#[derive(Clone, Copy, Debug, PartialEq, Eq, Structural)]
pub enum Token {
    Month,
    Year,
    Day,
    MimeType,
    Size,
    Extension,
    Width,
    Height,
    Kind,
    Unknown,
}

/// Which timestamp a date token reads.
#[derive(Clone, Copy, Debug, PartialEq, Eq, Structural)]
pub enum Specifier {
    Created,
    Modified,
    Accessed,
    Unknown,
}

/// A text transformation named in a variable; it is kept but not applied.
#[derive(Clone, Copy, Debug, PartialEq, Eq, Structural)]
pub enum Modifier {
    LowerCase,
    UpperCase,
    Names,
    Unknown,
}

/// The direction of a size bucket.
#[derive(Clone, Copy, Debug, PartialEq, Eq, Structural)]
pub enum Comparator {
    Greater,
    Less,
}

/// The unit of a size bucket's amount.
#[derive(Clone, Copy, Debug, PartialEq, Eq, Structural)]
pub enum Unit {
    Bytes,
    Kibibytes,
    Mebibytes,
    Gibibytes,
    Unknown,
}

pub open spec fn token_of(t: Seq<char>) -> Token {
    if t == "year"@ {
        Token::Year
    } else if t == "month"@ {
        Token::Month
    } else if t == "day"@ {
        Token::Day
    } else if t == "mime"@ {
        Token::MimeType
    } else if t == "extension"@ {
        Token::Extension
    } else if t == "size"@ {
        Token::Size
    } else if t == "kind"@ {
        Token::Kind
    } else if t == "width"@ {
        Token::Width
    } else if t == "height"@ {
        Token::Height
    } else {
        Token::Unknown
    }
}

pub open spec fn specifier_of(t: Seq<char>) -> Specifier {
    if t == "created"@ {
        Specifier::Created
    } else if t == "modified"@ {
        Specifier::Modified
    } else if t == "accessed"@ {
        Specifier::Accessed
    } else {
        Specifier::Unknown
    }
}

pub open spec fn modifier_of(t: Seq<char>) -> Modifier {
    if t == "lowercase"@ {
        Modifier::LowerCase
    } else if t == "uppercase"@ {
        Modifier::UpperCase
    } else if t == "names"@ {
        Modifier::Names
    } else {
        Modifier::Unknown
    }
}

pub open spec fn comparator_of(t: Seq<char>) -> Option<Comparator> {
    if t == "gt"@ {
        Some(Comparator::Greater)
    } else if t == "lt"@ {
        Some(Comparator::Less)
    } else {
        None
    }
}

pub open spec fn unit_of(t: Seq<char>) -> Unit {
    if t == "B"@ {
        Unit::Bytes
    } else if t == "K"@ {
        Unit::Kibibytes
    } else if t == "M"@ {
        Unit::Mebibytes
    } else if t == "G"@ {
        Unit::Gibibytes
    } else {
        Unit::Unknown
    }
}

/// Bytes per unit; an unknown unit counts as zero.
pub open spec fn multiplier(u: Unit) -> nat {
    match u {
        Unit::Bytes => 1,
        Unit::Kibibytes => 1024,
        Unit::Mebibytes => 1024 * 1024,
        Unit::Gibibytes => 1024 * 1024 * 1024,
        Unit::Unknown => 0,
    }
}

impl Token {
    /// The token named by `t`; names are matched exactly.
    pub fn from_text(t: &Vec<char>) -> (r: Token)
        ensures
            r == token_of(t@),
    {
        if spells(t, "year") {
            Token::Year
        } else if spells(t, "month") {
            Token::Month
        } else if spells(t, "day") {
            Token::Day
        } else if spells(t, "mime") {
            Token::MimeType
        } else if spells(t, "extension") {
            Token::Extension
        } else if spells(t, "size") {
            Token::Size
        } else if spells(t, "kind") {
            Token::Kind
        } else if spells(t, "width") {
            Token::Width
        } else if spells(t, "height") {
            Token::Height
        } else {
            Token::Unknown
        }
    }
}

impl Specifier {
    pub fn from_text(t: &Vec<char>) -> (r: Specifier)
        ensures
            r == specifier_of(t@),
    {
        if spells(t, "created") {
            Specifier::Created
        } else if spells(t, "modified") {
            Specifier::Modified
        } else if spells(t, "accessed") {
            Specifier::Accessed
        } else {
            Specifier::Unknown
        }
    }
}

impl Modifier {
    pub fn from_text(t: &Vec<char>) -> (r: Modifier)
        ensures
            r == modifier_of(t@),
    {
        if spells(t, "lowercase") {
            Modifier::LowerCase
        } else if spells(t, "uppercase") {
            Modifier::UpperCase
        } else if spells(t, "names") {
            Modifier::Names
        } else {
            Modifier::Unknown
        }
    }
}

impl Comparator {
    pub fn from_text(t: &Vec<char>) -> (r: Option<Comparator>)
        ensures
            r == comparator_of(t@),
    {
        if spells(t, "gt") {
            Some(Comparator::Greater)
        } else if spells(t, "lt") {
            Some(Comparator::Less)
        } else {
            None
        }
    }
}

impl Unit {
    pub fn from_text(t: &Vec<char>) -> (r: Unit)
        ensures
            r == unit_of(t@),
    {
        if spells(t, "B") {
            Unit::Bytes
        } else if spells(t, "K") {
            Unit::Kibibytes
        } else if spells(t, "M") {
            Unit::Mebibytes
        } else if spells(t, "G") {
            Unit::Gibibytes
        } else {
            Unit::Unknown
        }
    }

    /// Bytes per unit; zero for an unknown unit.
    pub fn multiplier(&self) -> (r: u64)
        ensures
            r == multiplier(*self),
    {
        match self {
            Unit::Bytes => 1,
            Unit::Kibibytes => 1024,
            Unit::Mebibytes => 1024 * 1024,
            Unit::Gibibytes => 1024 * 1024 * 1024,
            Unit::Unknown => 0,
        }
    }
}

} // verus!
