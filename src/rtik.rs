use vstd::prelude::*;
use crate::error::FormatError;

verus! {

/// The kinds of GHDL's run-time type information, which classify the
/// records of the TYPE section.
#[derive(Debug, Clone, Copy, PartialEq, Eq, Structural)]
pub enum GHDLRTIK {
    Top,
    Library,
    Package,
    PackageBody,
    Entity,
    Architecture,
    Process,
    Block,
    IfGenerate,
    ForGenerate,
    Instance,
    Constant,
    Iterator,
    Variable,
    Signal,
    File,
    Port,
    Generic,
    Alias,
    Guard,
    Component,
    Attribute,
    TypeB2,
    TypeE8,
    TypeE32,
    TypeI32,
    TypeI64,
    TypeF64,
    TypeP32,
    TypeP64,
    TypeAccess,
    TypeArray,
    TypeRecord,
    TypeFile,
    SubtypeScalar,
    SubtypeArray,
    SubtypeArrayPtr,
    SubtypeUnboundedArray,
    SubtypeRecord,
    SubtypeUnboundedRecord,
    Error,
}

/// The kind that a code of the fixed table names, if any.
pub open spec fn rtik_of(value: int) -> Option<GHDLRTIK> {
    if value == 0 {
        Some(GHDLRTIK::Top)
    }     else if value == 1 {
        Some(GHDLRTIK::Library)
    }     else if value == 2 {
        Some(GHDLRTIK::Package)
    }     else if value == 3 {
        Some(GHDLRTIK::PackageBody)
    }     else if value == 4 {
        Some(GHDLRTIK::Entity)
    }     else if value == 5 {
        Some(GHDLRTIK::Architecture)
    }     else if value == 6 {
        Some(GHDLRTIK::Process)
    }     else if value == 7 {
        Some(GHDLRTIK::Block)
    }     else if value == 8 {
        Some(GHDLRTIK::IfGenerate)
    }     else if value == 9 {
        Some(GHDLRTIK::ForGenerate)
    }     else if value == 10 {
        Some(GHDLRTIK::Instance)
    }     else if value == 11 {
        Some(GHDLRTIK::Constant)
    }     else if value == 12 {
        Some(GHDLRTIK::Iterator)
    }     else if value == 13 {
        Some(GHDLRTIK::Variable)
    }     else if value == 14 {
        Some(GHDLRTIK::Signal)
    }     else if value == 15 {
        Some(GHDLRTIK::File)
    }     else if value == 16 {
        Some(GHDLRTIK::Port)
    }     else if value == 17 {
        Some(GHDLRTIK::Generic)
    }     else if value == 18 {
        Some(GHDLRTIK::Alias)
    }     else if value == 19 {
        Some(GHDLRTIK::Guard)
    }     else if value == 20 {
        Some(GHDLRTIK::Component)
    }     else if value == 21 {
        Some(GHDLRTIK::Attribute)
    }     else if value == 22 {
        Some(GHDLRTIK::TypeB2)
    }     else if value == 23 {
        Some(GHDLRTIK::TypeE8)
    }     else if value == 24 {
        Some(GHDLRTIK::TypeE32)
    }     else if value == 25 {
        Some(GHDLRTIK::TypeI32)
    }     else if value == 26 {
        Some(GHDLRTIK::TypeI64)
    }     else if value == 27 {
        Some(GHDLRTIK::TypeF64)
    }     else if value == 28 {
        Some(GHDLRTIK::TypeP32)
    }     else if value == 29 {
        Some(GHDLRTIK::TypeP64)
    }     else if value == 30 {
        Some(GHDLRTIK::TypeAccess)
    }     else if value == 31 {
        Some(GHDLRTIK::TypeArray)
    }     else if value == 32 {
        Some(GHDLRTIK::TypeRecord)
    }     else if value == 33 {
        Some(GHDLRTIK::TypeFile)
    }     else if value == 34 {
        Some(GHDLRTIK::SubtypeScalar)
    }     else if value == 35 {
        Some(GHDLRTIK::SubtypeArray)
    }     else if value == 36 {
        Some(GHDLRTIK::SubtypeArrayPtr)
    }     else if value == 37 {
        Some(GHDLRTIK::SubtypeUnboundedArray)
    }     else if value == 38 {
        Some(GHDLRTIK::SubtypeRecord)
    }     else if value == 39 {
        Some(GHDLRTIK::SubtypeUnboundedRecord)
    }     else if value == 40 {
        Some(GHDLRTIK::Error)
    } else {
        None
    }
}

impl GHDLRTIK {
    /// Decodes a kind code; a code outside the table is a malformed type.
    pub fn from_i32(value: i32) -> (r: Result<GHDLRTIK, FormatError>)
        ensures
            match rtik_of(value as int) {
                Some(k) => r == Ok::<GHDLRTIK, FormatError>(k),
                None => r == Err::<GHDLRTIK, FormatError>(FormatError::MalformedType),
            },
    {
        match value {
            0 => Ok(GHDLRTIK::Top),
            1 => Ok(GHDLRTIK::Library),
            2 => Ok(GHDLRTIK::Package),
            3 => Ok(GHDLRTIK::PackageBody),
            4 => Ok(GHDLRTIK::Entity),
            5 => Ok(GHDLRTIK::Architecture),
            6 => Ok(GHDLRTIK::Process),
            7 => Ok(GHDLRTIK::Block),
            8 => Ok(GHDLRTIK::IfGenerate),
            9 => Ok(GHDLRTIK::ForGenerate),
            10 => Ok(GHDLRTIK::Instance),
            11 => Ok(GHDLRTIK::Constant),
            12 => Ok(GHDLRTIK::Iterator),
            13 => Ok(GHDLRTIK::Variable),
            14 => Ok(GHDLRTIK::Signal),
            15 => Ok(GHDLRTIK::File),
            16 => Ok(GHDLRTIK::Port),
            17 => Ok(GHDLRTIK::Generic),
            18 => Ok(GHDLRTIK::Alias),
            19 => Ok(GHDLRTIK::Guard),
            20 => Ok(GHDLRTIK::Component),
            21 => Ok(GHDLRTIK::Attribute),
            22 => Ok(GHDLRTIK::TypeB2),
            23 => Ok(GHDLRTIK::TypeE8),
            24 => Ok(GHDLRTIK::TypeE32),
            25 => Ok(GHDLRTIK::TypeI32),
            26 => Ok(GHDLRTIK::TypeI64),
            27 => Ok(GHDLRTIK::TypeF64),
            28 => Ok(GHDLRTIK::TypeP32),
            29 => Ok(GHDLRTIK::TypeP64),
            30 => Ok(GHDLRTIK::TypeAccess),
            31 => Ok(GHDLRTIK::TypeArray),
            32 => Ok(GHDLRTIK::TypeRecord),
            33 => Ok(GHDLRTIK::TypeFile),
            34 => Ok(GHDLRTIK::SubtypeScalar),
            35 => Ok(GHDLRTIK::SubtypeArray),
            36 => Ok(GHDLRTIK::SubtypeArrayPtr),
            37 => Ok(GHDLRTIK::SubtypeUnboundedArray),
            38 => Ok(GHDLRTIK::SubtypeRecord),
            39 => Ok(GHDLRTIK::SubtypeUnboundedRecord),
            40 => Ok(GHDLRTIK::Error),
            _ => Err(FormatError::MalformedType),
        }
    }
}

} // verus!
