//! The stream and info selectors of a media inspection session, and which
//! stream holds the dimensions of each kind of content.

use vstd::prelude::*;
use crate::item::Kind;

verus! {

/// A stream selector of a media inspection session, in the session's order.
#[derive(Clone, Copy, Debug, PartialEq, Eq, Structural)]
pub enum StreamKind {
    General,
    Video,
    Audio,
    Text,
    Other,
    Image,
    Menu,
    Max,
}

/// What a session query returns about a field, in the session's order.
#[derive(Clone, Copy, Debug, PartialEq, Eq, Structural)]
pub enum InfoKind {
    Name,
    Text,
    Measure,
    Options,
    NameText,
    MeasureText,
    Info,
    HowTo,
    Max,
}

impl StreamKind {
    /// The selector's number in the session's interface.
    pub fn code(&self) -> (r: u32)
        ensures
            r == match *self {
                StreamKind::General => 0u32,
                StreamKind::Video => 1,
                StreamKind::Audio => 2,
                StreamKind::Text => 3,
                StreamKind::Other => 4,
                StreamKind::Image => 5,
                StreamKind::Menu => 6,
                StreamKind::Max => 7,
            },
    {
        match self {
            StreamKind::General => 0,
            StreamKind::Video => 1,
            StreamKind::Audio => 2,
            StreamKind::Text => 3,
            StreamKind::Other => 4,
            StreamKind::Image => 5,
            StreamKind::Menu => 6,
            StreamKind::Max => 7,
        }
    }

    /// The stream that holds the width and height of content of `kind`:
    /// images and videos have one, other content none.
    pub fn for_kind(kind: Option<Kind>) -> (r: Option<StreamKind>)
        ensures
            r == match kind {
                Some(Kind::Image) => Some(StreamKind::Image),
                Some(Kind::Video) => Some(StreamKind::Video),
                _ => None::<StreamKind>,
            },
    {
        match kind {
            Some(Kind::Image) => Some(StreamKind::Image),
            Some(Kind::Video) => Some(StreamKind::Video),
            _ => None,
        }
    }
}

impl InfoKind {
    /// The selector's number in the session's interface.
    pub fn code(&self) -> (r: u32)
        ensures
            r == match *self {
                InfoKind::Name => 0u32,
                InfoKind::Text => 1,
                InfoKind::Measure => 2,
                InfoKind::Options => 3,
                InfoKind::NameText => 4,
                InfoKind::MeasureText => 5,
                InfoKind::Info => 6,
                InfoKind::HowTo => 7,
                InfoKind::Max => 8,
            },
    {
        match self {
            InfoKind::Name => 0,
            InfoKind::Text => 1,
            InfoKind::Measure => 2,
            InfoKind::Options => 3,
            InfoKind::NameText => 4,
            InfoKind::MeasureText => 5,
            InfoKind::Info => 6,
            InfoKind::HowTo => 7,
            InfoKind::Max => 8,
        }
    }
}

} // verus!
