use vstd::prelude::*;
use crate::error::FormatError;

verus! {

/// The kind of a hierarchy record, by the tag that opens it.
#[derive(Debug, Clone, Copy, PartialEq, Eq, Structural)]
pub enum GHWHierarchyKind {
    EOH,
    Design,
    Block,
    GenerateIf,
    GenerateFor,
    Instance,
    Package,
    Process,
    Generic,
    EndOfSection,
    Signal,
    PortIn,
    PortOut,
    PortInOut,
    PortBuffer,
    PortLinkage,
}

/// The kind that a hierarchy tag names, if any.
pub open spec fn hier_kind_of(value: int) -> Option<GHWHierarchyKind> {
    if value == 0 {
        Some(GHWHierarchyKind::EOH)
    }     else if value == 1 {
        Some(GHWHierarchyKind::Design)
    }     else if value == 3 {
        Some(GHWHierarchyKind::Block)
    }     else if value == 4 {
        Some(GHWHierarchyKind::GenerateIf)
    }     else if value == 5 {
        Some(GHWHierarchyKind::GenerateFor)
    }     else if value == 6 {
        Some(GHWHierarchyKind::Instance)
    }     else if value == 7 {
        Some(GHWHierarchyKind::Package)
    }     else if value == 13 {
        Some(GHWHierarchyKind::Process)
    }     else if value == 14 {
        Some(GHWHierarchyKind::Generic)
    }     else if value == 15 {
        Some(GHWHierarchyKind::EndOfSection)
    }     else if value == 16 {
        Some(GHWHierarchyKind::Signal)
    }     else if value == 17 {
        Some(GHWHierarchyKind::PortIn)
    }     else if value == 18 {
        Some(GHWHierarchyKind::PortOut)
    }     else if value == 19 {
        Some(GHWHierarchyKind::PortInOut)
    }     else if value == 20 {
        Some(GHWHierarchyKind::PortBuffer)
    }     else if value == 21 {
        Some(GHWHierarchyKind::PortLinkage)
    } else {
        None
    }
}

/// The short text that names a kind.
pub open spec fn kind_label(k: GHWHierarchyKind) -> Seq<char> {
    match k {
        GHWHierarchyKind::EOH => "eoh"@,
        GHWHierarchyKind::Design => "design"@,
        GHWHierarchyKind::Block => "block"@,
        GHWHierarchyKind::GenerateIf => "generate-if"@,
        GHWHierarchyKind::GenerateFor => "generate-for"@,
        GHWHierarchyKind::Instance => "instance"@,
        GHWHierarchyKind::Package => "package"@,
        GHWHierarchyKind::Process => "process"@,
        GHWHierarchyKind::Generic => "generic"@,
        GHWHierarchyKind::EndOfSection => "eos"@,
        GHWHierarchyKind::Signal => "signal"@,
        GHWHierarchyKind::PortIn => "port-in"@,
        GHWHierarchyKind::PortOut => "port-out"@,
        GHWHierarchyKind::PortInOut => "port-inout"@,
        GHWHierarchyKind::PortBuffer => "port-buffer"@,
        GHWHierarchyKind::PortLinkage => "port-linkage"@,
    }
}

/// Kinds that open a scope and own children.
pub open spec fn is_scope_kind(k: GHWHierarchyKind) -> bool {
    match k {
        GHWHierarchyKind::Design | GHWHierarchyKind::Block | GHWHierarchyKind::GenerateIf
        | GHWHierarchyKind::GenerateFor | GHWHierarchyKind::Instance | GHWHierarchyKind::Package
        | GHWHierarchyKind::Process => true,
        _ => false,
    }
}

/// Kinds of declarations that hold signal slots.
pub open spec fn is_leaf_kind(k: GHWHierarchyKind) -> bool {
    match k {
        GHWHierarchyKind::Generic | GHWHierarchyKind::Signal | GHWHierarchyKind::PortIn
        | GHWHierarchyKind::PortOut | GHWHierarchyKind::PortInOut | GHWHierarchyKind::PortBuffer
        | GHWHierarchyKind::PortLinkage => true,
        _ => false,
    }
}

impl GHWHierarchyKind {
    /// Decodes a hierarchy tag; a value that names no kind is malformed.
    pub fn from_i32(num: i32) -> (r: Result<GHWHierarchyKind, FormatError>)
        ensures
            match hier_kind_of(num as int) {
                Some(k) => r == Ok::<GHWHierarchyKind, FormatError>(k),
                None => r == Err::<GHWHierarchyKind, FormatError>(FormatError::MalformedHierarchy),
            },
    {
        match num {
            0 => Ok(GHWHierarchyKind::EOH),
            1 => Ok(GHWHierarchyKind::Design),
            3 => Ok(GHWHierarchyKind::Block),
            4 => Ok(GHWHierarchyKind::GenerateIf),
            5 => Ok(GHWHierarchyKind::GenerateFor),
            6 => Ok(GHWHierarchyKind::Instance),
            7 => Ok(GHWHierarchyKind::Package),
            13 => Ok(GHWHierarchyKind::Process),
            14 => Ok(GHWHierarchyKind::Generic),
            15 => Ok(GHWHierarchyKind::EndOfSection),
            16 => Ok(GHWHierarchyKind::Signal),
            17 => Ok(GHWHierarchyKind::PortIn),
            18 => Ok(GHWHierarchyKind::PortOut),
            19 => Ok(GHWHierarchyKind::PortInOut),
            20 => Ok(GHWHierarchyKind::PortBuffer),
            21 => Ok(GHWHierarchyKind::PortLinkage),
            _ => Err(FormatError::MalformedHierarchy),
        }
    }

    /// The short text that names this kind, as printed in listings.
    pub fn label(&self) -> (r: &'static str)
        ensures
            r@ == kind_label(*self),
    {
        match self {
            GHWHierarchyKind::EOH => "eoh",
            GHWHierarchyKind::Design => "design",
            GHWHierarchyKind::Block => "block",
            GHWHierarchyKind::GenerateIf => "generate-if",
            GHWHierarchyKind::GenerateFor => "generate-for",
            GHWHierarchyKind::Instance => "instance",
            GHWHierarchyKind::Package => "package",
            GHWHierarchyKind::Process => "process",
            GHWHierarchyKind::Generic => "generic",
            GHWHierarchyKind::EndOfSection => "eos",
            GHWHierarchyKind::Signal => "signal",
            GHWHierarchyKind::PortIn => "port-in",
            GHWHierarchyKind::PortOut => "port-out",
            GHWHierarchyKind::PortInOut => "port-inout",
            GHWHierarchyKind::PortBuffer => "port-buffer",
            GHWHierarchyKind::PortLinkage => "port-linkage",
        }
    }

    /// True for the kinds that open a scope.
    pub fn is_scope(&self) -> (r: bool)
        ensures
            r == is_scope_kind(*self),
    {
        match self {
            GHWHierarchyKind::Design | GHWHierarchyKind::Block | GHWHierarchyKind::GenerateIf
            | GHWHierarchyKind::GenerateFor | GHWHierarchyKind::Instance
            | GHWHierarchyKind::Package | GHWHierarchyKind::Process => true,
            _ => false,
        }
    }

    /// True for the kinds of declarations that hold signal slots.
    pub fn is_leaf(&self) -> (r: bool)
        ensures
            r == is_leaf_kind(*self),
    {
        match self {
            GHWHierarchyKind::Generic | GHWHierarchyKind::Signal | GHWHierarchyKind::PortIn
            | GHWHierarchyKind::PortOut | GHWHierarchyKind::PortInOut
            | GHWHierarchyKind::PortBuffer | GHWHierarchyKind::PortLinkage => true,
            _ => false,
        }
    }
}

} // verus!
