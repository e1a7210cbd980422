//! The error taxonomy of anonymous-target resolution.

use vstd::prelude::*;

verus! {

/// Everything that can go wrong while building, coercing or resolving an
/// anonymous target.  The first five variants are this subsystem's own
/// errors; `CoercionFailed` and `Wrapped` stand for failures surfaced by
/// the attribute machinery and by outside collaborators (the rule
/// implementation, execution-platform resolution, or the computation
/// engine).
#[derive(Debug)]
pub enum AnonTargetsError {
    /// A context that must not hold pending registrations held one.
    AssertNoPromisesFailed,
    /// The `name` attribute was neither a label nor a string.
    InvalidNameType { typ: String, value: String },
    /// The `name` attribute's text was not a concrete target label.
    NotTargetLabel(String),
    /// String parsing of labels, paths, patterns and queries is denied
    /// during anonymous-target coercion.
    CantParseDuringCoerce(String),
    /// The attribute name is absent from the rule's declared schema.
    UnknownAttribute(String),
    /// The supplied value does not fit the attribute's declared type.
    CoercionFailed { expected: String, value: String },
    /// An opaque failure from a collaborator.
    Wrapped(String),
}

/// The mathematical form of an error, over character sequences.
pub ghost enum ErrV {
    AssertNoPromisesFailed,
    InvalidNameType { typ: Seq<char>, value: Seq<char> },
    NotTargetLabel(Seq<char>),
    CantParseDuringCoerce(Seq<char>),
    UnknownAttribute(Seq<char>),
    CoercionFailed { expected: Seq<char>, value: Seq<char> },
    Wrapped(Seq<char>),
}

impl View for AnonTargetsError {
    type V = ErrV;

    open spec fn view(&self) -> ErrV {
        match self {
            AnonTargetsError::AssertNoPromisesFailed => ErrV::AssertNoPromisesFailed,
            AnonTargetsError::InvalidNameType { typ, value } => ErrV::InvalidNameType {
                typ: typ@,
                value: value@,
            },
            AnonTargetsError::NotTargetLabel(t) => ErrV::NotTargetLabel(t@),
            AnonTargetsError::CantParseDuringCoerce(t) => ErrV::CantParseDuringCoerce(t@),
            AnonTargetsError::UnknownAttribute(t) => ErrV::UnknownAttribute(t@),
            AnonTargetsError::CoercionFailed { expected, value } => ErrV::CoercionFailed {
                expected: expected@,
                value: value@,
            },
            AnonTargetsError::Wrapped(t) => ErrV::Wrapped(t@),
        }
    }
}

impl AnonTargetsError {
    /// An exact copy of the error.
    pub fn duplicate(&self) -> (r: Self)
        ensures
            r@ == self@,
    {
        match self {
            AnonTargetsError::AssertNoPromisesFailed => AnonTargetsError::AssertNoPromisesFailed,
            AnonTargetsError::InvalidNameType { typ, value } => AnonTargetsError::InvalidNameType {
                typ: typ.clone(),
                value: value.clone(),
            },
            AnonTargetsError::NotTargetLabel(t) => AnonTargetsError::NotTargetLabel(t.clone()),
            AnonTargetsError::CantParseDuringCoerce(t) => AnonTargetsError::CantParseDuringCoerce(
                t.clone(),
            ),
            AnonTargetsError::UnknownAttribute(t) => AnonTargetsError::UnknownAttribute(t.clone()),
            AnonTargetsError::CoercionFailed { expected, value } => AnonTargetsError::CoercionFailed {
                expected: expected.clone(),
                value: value.clone(),
            },
            AnonTargetsError::Wrapped(t) => AnonTargetsError::Wrapped(t.clone()),
        }
    }
}

} // verus!
