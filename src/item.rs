//! The facts about one directory entry that templates read, and the outside
//! lookups that interpret them: calendar dates, MIME types, extensions.

use vstd::prelude::*;
use vstd::string::*;
use chrono::Datelike;
use crate::parser::{parse_unsigned, unsigned_of};
use crate::vocabulary::Specifier;

verus! {

/// Why a fact about an item could not be had.
#[derive(Clone, Copy, Debug, PartialEq, Eq, Structural)]
pub enum ItemError {
    Failure,
    Open,
    Metadata,
    UnknownSpecifier,
    Format,
    ConvertTime,
    IO,
    ParseIntError,
}

/// The text that describes each item error.
pub open spec fn error_text(e: ItemError) -> Seq<char> {
    match e {
        ItemError::Failure => "Item failure"@,
        ItemError::Open => "Failed to open item"@,
        ItemError::Metadata => "Failed to get item metadata"@,
        ItemError::UnknownSpecifier => "Unknown specifier on item"@,
        ItemError::Format => "Error getting item format"@,
        ItemError::ConvertTime => "Error converting time"@,
        ItemError::IO => "I/O error"@,
        ItemError::ParseIntError => "Failed to parse int"@,
    }
}

impl ItemError {
    /// The text that describes the error.
    pub fn message(&self) -> (r: String)
        ensures
            r@ == error_text(*self),
    {
        match self {
            ItemError::Failure => String::from_str("Item failure"),
            ItemError::Open => String::from_str("Failed to open item"),
            ItemError::Metadata => String::from_str("Failed to get item metadata"),
            ItemError::UnknownSpecifier => String::from_str("Unknown specifier on item"),
            ItemError::Format => String::from_str("Error getting item format"),
            ItemError::ConvertTime => String::from_str("Error converting time"),
            ItemError::IO => String::from_str("I/O error"),
            ItemError::ParseIntError => String::from_str("Failed to parse int"),
        }
    }
}

/// What the entry is on disk.
#[derive(Clone, Copy, Debug, PartialEq, Eq, Structural)]
pub enum EntryKind {
    File,
    Directory,
    Other,
}

/// A timestamp as the platform reported it.
#[derive(Clone, Copy, Debug, PartialEq, Eq, Structural)]
pub enum TimeStamp {
    /// The platform keeps no such time for the entry.
    Unavailable,
    /// The time lies before the Unix epoch.
    BeforeEpoch,
    /// Milliseconds since the Unix epoch.
    Millis(u128),
}

/// The content classification of a file, from sniffing its first bytes.
#[derive(Clone, Copy, Debug, PartialEq, Eq, Structural)]
pub enum Kind {
    Application,
    Archive,
    Audio,
    Book,
    Certificate,
    Compression,
    Disk,
    Document,
    Executable,
    Font,
    Geospatial,
    Image,
    Model,
    Package,
    Playlist,
    Rom,
    Subtitle,
    Syndication,
    Text,
    Video,
}

/// A calendar date in UTC.
#[derive(Clone, Copy, Debug, PartialEq, Eq, Structural)]
pub struct CivilDate {
    pub year: i32,
    pub month: u32,
    pub day: u32,
}

/// The width and height fields, as text, that a media inspection session
/// reported for the file's image or video stream.
#[derive(Clone, Debug)]
pub struct MediaFields {
    pub width: String,
    pub height: String,
}

/// The facts about one directory entry.
#[derive(Clone, Debug)]
pub struct Item {
    /// The entry's full path.
    pub path: String,
    /// The entry's own name, the last component of its path.
    pub name: String,
    pub entry: EntryKind,
    /// Size in bytes.
    pub size: u64,
    pub created: TimeStamp,
    pub modified: TimeStamp,
    pub accessed: TimeStamp,
    /// The sniffed content kind; `None` for directories and where sniffing failed.
    pub kind: Option<Kind>,
    /// The media fields; `None` where no session was opened on the file.
    pub media: Option<MediaFields>,
}

/// The UTC calendar date, as year, month and day, of a count of milliseconds
/// since the Unix epoch; `None` outside the range of dates that chrono holds.
pub uninterp spec fn utc_date(millis: i64) -> Option<(i32, u32, u32)>;

/// The first MIME type, as type and subtype, that mime_guess registers for
/// the extension of a path; `None` where it knows none.
pub uninterp spec fn guessed_mime(path: Seq<char>) -> Option<(Seq<char>, Seq<char>)>;

/// The extension of a path as `std::path::Path::extension` finds it.
pub uninterp spec fn path_extension(path: Seq<char>) -> Option<Seq<char>>;

/// Relies on chrono's `DateTime::from_timestamp_millis` and the `Datelike`
/// accessors `year`, `month`, `day`: the UTC date of the timestamp, or
/// `None` where it is out of chrono's range.
#[verifier::external_body]
fn utc_date_of(millis: i64) -> (r: Option<(i32, u32, u32)>)
    ensures
        r == utc_date(millis),
{
    match chrono::DateTime::from_timestamp_millis(millis) {
        Some(t) => Some((t.year(), t.month(), t.day())),
        None => None,
    }
}

/// Relies on mime_guess's `from_path(path).first()`, split by the `mime`
/// crate's `type_` and `subtype`.
#[verifier::external_body]
fn first_mime(path: &str) -> (r: Option<(String, String)>)
    ensures
        match guessed_mime(path@) {
            Some((t, s)) => r matches Some((rt, rs)) && rt@ == t && rs@ == s,
            None => r is None,
        },
{
    match mime_guess::from_path(path).first() {
        Some(m) => Some((m.type_().as_str().to_string(), m.subtype().as_str().to_string())),
        None => None,
    }
}

/// Relies on `std::path::Path::extension`, with the extension turned into
/// text by `to_string_lossy`.
#[verifier::external_body]
fn extension_of(path: &str) -> (r: Option<String>)
    ensures
        match path_extension(path@) {
            Some(e) => r matches Some(x) && x@ == e,
            None => r is None,
        },
{
    match std::path::Path::new(path).extension() {
        Some(e) => Some(e.to_string_lossy().into_owned()),
        None => None,
    }
}

/// The MIME type text of a path: `type/subtype`, or `text/plain` where
/// nothing is known for it.
pub open spec fn mime_text(path: Seq<char>) -> Seq<char> {
    match guessed_mime(path) {
        Some((t, s)) => t + "/"@ + s,
        None => "text/plain"@,
    }
}

/// The name an entry keeps at its destination: its own name for a file or
/// a directory, nothing for anything else.
pub open spec fn kept_name(item: Item) -> Seq<char> {
    if item.entry == EntryKind::Other {
        Seq::empty()
    } else {
        item.name@
    }
}

pub open spec fn stamp_of(item: Item, s: Specifier) -> TimeStamp {
    match s {
        Specifier::Created => item.created,
        Specifier::Modified => item.modified,
        _ => item.accessed,
    }
}

/// The date that specifier `s` selects, or why there is none.
pub open spec fn date_of(item: Item, s: Specifier) -> Result<(i32, u32, u32), ItemError> {
    if s == Specifier::Unknown {
        Err(ItemError::UnknownSpecifier)
    } else {
        match stamp_of(item, s) {
            TimeStamp::Unavailable => Err(ItemError::Metadata),
            TimeStamp::BeforeEpoch => Err(ItemError::Failure),
            TimeStamp::Millis(ms) => if ms > i64::MAX {
                Err(ItemError::ConvertTime)
            } else {
                match utc_date(ms as i64) {
                    Some(d) => Ok(d),
                    None => Err(ItemError::ConvertTime),
                }
            },
        }
    }
}

/// The width (`wide`) or height of an image or video, or why there is none.
pub open spec fn dimension_of(item: Item, wide: bool) -> Result<u64, ItemError> {
    match item.kind {
        None => Err(ItemError::Format),
        Some(Kind::Image) | Some(Kind::Video) => match item.media {
            None => Err(ItemError::Open),
            Some(m) => match unsigned_of(if wide { m.width@ } else { m.height@ }) {
                Some(v) => Ok(v),
                None => Err(ItemError::ParseIntError),
            },
        },
        _ => Err(ItemError::Failure),
    }
}

/// The fixed label of each content kind. Rendering does not use the label
/// of the catch-all `Application`: it guesses a type from the path instead.
pub open spec fn kind_label(k: Kind) -> Seq<char> {
    match k {
        Kind::Application => "application"@,
        Kind::Archive => "archive"@,
        Kind::Audio => "audio"@,
        Kind::Book => "book"@,
        Kind::Certificate => "certificate"@,
        Kind::Compression => "compression"@,
        Kind::Disk => "disk"@,
        Kind::Document => "document"@,
        Kind::Executable => "executable"@,
        Kind::Font => "font"@,
        Kind::Geospatial => "geospatial"@,
        Kind::Image => "image"@,
        Kind::Model => "model"@,
        Kind::Package => "package"@,
        Kind::Playlist => "playlist"@,
        Kind::Rom => "rom"@,
        Kind::Subtitle => "subtitle"@,
        Kind::Syndication => "syndication"@,
        Kind::Text => "text"@,
        Kind::Video => "video"@,
    }
}

impl Kind {
    /// The kind's fixed label.
    pub fn label(&self) -> (r: String)
        ensures
            r@ == kind_label(*self),
    {
        match self {
            Kind::Application => String::from_str("application"),
            Kind::Archive => String::from_str("archive"),
            Kind::Audio => String::from_str("audio"),
            Kind::Book => String::from_str("book"),
            Kind::Certificate => String::from_str("certificate"),
            Kind::Compression => String::from_str("compression"),
            Kind::Disk => String::from_str("disk"),
            Kind::Document => String::from_str("document"),
            Kind::Executable => String::from_str("executable"),
            Kind::Font => String::from_str("font"),
            Kind::Geospatial => String::from_str("geospatial"),
            Kind::Image => String::from_str("image"),
            Kind::Model => String::from_str("model"),
            Kind::Package => String::from_str("package"),
            Kind::Playlist => String::from_str("playlist"),
            Kind::Rom => String::from_str("rom"),
            Kind::Subtitle => String::from_str("subtitle"),
            Kind::Syndication => String::from_str("syndication"),
            Kind::Text => String::from_str("text"),
            Kind::Video => String::from_str("video"),
        }
    }
}

impl Item {
    pub fn is_file(&self) -> (r: bool)
        ensures
            r == (self.entry == EntryKind::File),
    {
        self.entry == EntryKind::File
    }

    pub fn is_dir(&self) -> (r: bool)
        ensures
            r == (self.entry == EntryKind::Directory),
    {
        self.entry == EntryKind::Directory
    }

    pub fn path(&self) -> (r: &String)
        ensures
            r == &self.path,
    {
        &self.path
    }

    pub fn size(&self) -> (r: u64)
        ensures
            r == self.size,
    {
        self.size
    }

    pub fn kind(&self) -> (r: Option<Kind>)
        ensures
            r == self.kind,
    {
        self.kind
    }

    /// The entry's name where it is a file.
    pub fn file_name(&self) -> (r: Option<String>)
        ensures
            self.entry == EntryKind::File ==> (r matches Some(n) && n@ == self.name@),
            self.entry != EntryKind::File ==> r is None,
    {
        if self.is_file() {
            Some(self.name.clone())
        } else {
            None
        }
    }

    /// The entry's name where it is a directory.
    pub fn dir_name(&self) -> (r: Option<String>)
        ensures
            self.entry == EntryKind::Directory ==> (r matches Some(n) && n@ == self.name@),
            self.entry != EntryKind::Directory ==> r is None,
    {
        if self.is_dir() {
            Some(self.name.clone())
        } else {
            None
        }
    }

    /// The name the entry keeps at its destination.
    pub fn entry_name(&self) -> (r: String)
        ensures
            r@ == kept_name(*self),
    {
        match self.entry {
            EntryKind::Other => String::new(),
            _ => self.name.clone(),
        }
    }

    /// The calendar date of the timestamp that `specifier` selects.
    pub fn datetime(&self, specifier: Specifier) -> (r: Result<CivilDate, ItemError>)
        ensures
            match date_of(*self, specifier) {
                Ok((y, m, d)) => r == Ok::<CivilDate, ItemError>(
                    CivilDate { year: y, month: m, day: d },
                ),
                Err(e) => r == Err::<CivilDate, ItemError>(e),
            },
    {
        let stamp = match specifier {
            Specifier::Created => self.created,
            Specifier::Modified => self.modified,
            Specifier::Accessed => self.accessed,
            Specifier::Unknown => {
                return Err(ItemError::UnknownSpecifier);
            },
        };
        match stamp {
            TimeStamp::Unavailable => Err(ItemError::Metadata),
            TimeStamp::BeforeEpoch => Err(ItemError::Failure),
            TimeStamp::Millis(ms) => {
                if ms > i64::MAX as u128 {
                    return Err(ItemError::ConvertTime);
                }
                match utc_date_of(ms as i64) {
                    Some((year, month, day)) => Ok(CivilDate { year, month, day }),
                    None => Err(ItemError::ConvertTime),
                }
            },
        }
    }

    pub fn created(&self) -> (r: Result<CivilDate, ItemError>)
        ensures
            r == self.datetime_spec(Specifier::Created),
    {
        self.datetime(Specifier::Created)
    }

    pub fn modified(&self) -> (r: Result<CivilDate, ItemError>)
        ensures
            r == self.datetime_spec(Specifier::Modified),
    {
        self.datetime(Specifier::Modified)
    }

    pub fn accessed(&self) -> (r: Result<CivilDate, ItemError>)
        ensures
            r == self.datetime_spec(Specifier::Accessed),
    {
        self.datetime(Specifier::Accessed)
    }

    pub open spec fn datetime_spec(&self, s: Specifier) -> Result<CivilDate, ItemError> {
        match date_of(*self, s) {
            Ok((y, m, d)) => Ok(CivilDate { year: y, month: m, day: d }),
            Err(e) => Err(e),
        }
    }

    fn dimension(&self, wide: bool) -> (r: Result<u64, ItemError>)
        ensures
            r == dimension_of(*self, wide),
    {
        match self.kind {
            None => Err(ItemError::Format),
            Some(Kind::Image) | Some(Kind::Video) => match &self.media {
                None => Err(ItemError::Open),
                Some(m) => {
                    let text = if wide {
                        &m.width
                    } else {
                        &m.height
                    };
                    match parse_unsigned(text.as_str()) {
                        Some(v) => Ok(v),
                        None => Err(ItemError::ParseIntError),
                    }
                },
            },
            _ => Err(ItemError::Failure),
        }
    }

    /// The pixel width of an image or video.
    pub fn width(&self) -> (r: Result<u64, ItemError>)
        ensures
            r == dimension_of(*self, true),
    {
        self.dimension(true)
    }

    /// The pixel height of an image or video.
    pub fn height(&self) -> (r: Result<u64, ItemError>)
        ensures
            r == dimension_of(*self, false),
    {
        self.dimension(false)
    }

    /// The MIME type of the item's path, `text/plain` where none is known.
    pub fn mime(&self) -> (r: String)
        ensures
            r@ == mime_text(self.path@),
    {
        match first_mime(self.path.as_str()) {
            Some((t, s)) => {
                let mut r = t;
                r.append("/");
                r.append(s.as_str());
                r
            },
            None => String::from_str("text/plain"),
        }
    }

    /// The type part of the item's first guessed MIME type.
    pub fn mime_type(&self) -> (r: Option<String>)
        ensures
            match guessed_mime(self.path@) {
                Some((t, s)) => r matches Some(x) && x@ == t,
                None => r is None,
            },
    {
        match first_mime(self.path.as_str()) {
            Some((t, _)) => Some(t),
            None => None,
        }
    }

    /// The extension of the item's path.
    pub fn extension(&self) -> (r: Option<String>)
        ensures
            match path_extension(self.path@) {
                Some(e) => r matches Some(x) && x@ == e,
                None => r is None,
            },
    {
        extension_of(self.path.as_str())
    }
}

} // verus!
