use vstd::prelude::*;
use crate::error::FormatError;

verus! {

/// The kind of a section, as given by the tag byte that opens it.
#[derive(Debug, Clone, Copy, PartialEq, Eq, Structural)]
pub enum GHWSection {
    Null,
    String,
    Hierarchy,
    Type,
    WellKnownType,
    EOH,
    Snapshot,
    Cycle,
    Directory,
    Tailer,
}

/// The section that a tag value names, if any.
pub open spec fn section_of(value: int) -> Option<GHWSection> {
    if value == 0 { Some(GHWSection::Null) }
    else if value == 1 { Some(GHWSection::String) }
    else if value == 2 { Some(GHWSection::Hierarchy) }
    else if value == 3 { Some(GHWSection::Type) }
    else if value == 4 { Some(GHWSection::WellKnownType) }
    else if value == 5 { Some(GHWSection::EOH) }
    else if value == 6 { Some(GHWSection::Snapshot) }
    else if value == 7 { Some(GHWSection::Cycle) }
    else if value == 8 { Some(GHWSection::Directory) }
    else if value == 9 { Some(GHWSection::Tailer) }
    else { None }
}

impl GHWSection {
    /// Decodes a section tag; a value outside 0..=9 is an unknown section.
    pub fn from_i32(value: i32) -> (r: Result<GHWSection, FormatError>)
        ensures
            match section_of(value as int) {
                Some(s) => r == Ok::<GHWSection, FormatError>(s),
                None => r == Err::<GHWSection, FormatError>(FormatError::UnknownSection),
            },
    {
        match value {
            0 => Ok(GHWSection::Null),
            1 => Ok(GHWSection::String),
            2 => Ok(GHWSection::Hierarchy),
            3 => Ok(GHWSection::Type),
            4 => Ok(GHWSection::WellKnownType),
            5 => Ok(GHWSection::EOH),
            6 => Ok(GHWSection::Snapshot),
            7 => Ok(GHWSection::Cycle),
            8 => Ok(GHWSection::Directory),
            9 => Ok(GHWSection::Tailer),
            _ => Err(FormatError::UnknownSection),
        }
    }
}

} // verus!
