//! Restricted attribute coercion for anonymous targets.
//!
//! Anonymous targets have no package or cell context of their own, so any
//! attribute value that would normally be resolved against the ambient
//! graph must already be fully resolved before it reaches this coercer.
//! The restricted context therefore denies every string-resolution
//! capability instead of consulting the graph.

use vstd::prelude::*;

use crate::attrs::raw_display;
use crate::attrs::raw_type_name;
use crate::attrs::AttrType;
use crate::attrs::AttrV;
use crate::attrs::ConfiguredLabel;
use crate::attrs::RawV;
use crate::config::CfgV;
use crate::config::Configuration;
use crate::errors::AnonTargetsError;
use crate::errors::ErrV;
use crate::label::label_text;
use crate::label::label_wf;
use crate::label::LabelV;
use crate::label::TargetLabel;

verus! {

/// What coercing a `name` attribute value yields: a resolved label's
/// unconfigured target label, the unique label a string parses to, or
/// the error the value's shape forces.
pub open spec fn coerce_name_spec(v: RawV) -> Result<LabelV, ErrV> {
    match v {
        RawV::Label(cl) => Result::Ok(cl.target),
        RawV::Str(s) => if exists|l: LabelV| label_wf(l) && label_text(l) == s {
            Result::Ok(choose|l: LabelV| label_wf(l) && label_text(l) == s)
        } else {
            Result::Err(ErrV::NotTargetLabel(s))
        },
        RawV::Bool(_) => Result::Err(
            ErrV::InvalidNameType { typ: raw_type_name(v), value: raw_display(v) },
        ),
    }
}

/// What coercing a value at a declared attribute type yields.  A string
/// supplied where a label is expected is a capability denial
/// (`CantParseDuringCoerce`), not a parse; any other mismatch is a
/// coercion failure.
pub open spec fn coerce_attr_spec(t: AttrType, v: RawV) -> Result<AttrV, ErrV> {
    match t {
        AttrType::Label => match v {
            RawV::Label(cl) => Result::Ok(AttrV::Label(cl)),
            RawV::Str(s) => Result::Err(ErrV::CantParseDuringCoerce(s)),
            RawV::Bool(_) => Result::Err(
                ErrV::CoercionFailed { expected: "label"@, value: raw_display(v) },
            ),
        },
        AttrType::Str => match v {
            RawV::Str(s) => Result::Ok(AttrV::Str(s)),
            _ => Result::Err(ErrV::CoercionFailed { expected: "string"@, value: raw_display(v) }),
        },
        AttrType::Bool => match v {
            RawV::Bool(b) => Result::Ok(AttrV::Bool(b)),
            _ => Result::Err(ErrV::CoercionFailed { expected: "bool"@, value: raw_display(v) }),
        },
    }
}

/// The capability-restricted coercion context used for anonymous
/// targets: an unspecified configuration, an empty transition mapping,
/// and a denial of every string-resolution request.
pub struct AnonAttrCtx {
    pub cfg: Configuration,
    pub transitions: Vec<(String, String)>,
}

impl AnonAttrCtx {
    /// A fresh restricted context.
    pub fn new() -> (r: Self)
        ensures
            r.cfg@ == CfgV::Unspecified,
            r.transitions@.len() == 0,
    {
        AnonAttrCtx { cfg: Configuration::Unspecified, transitions: Vec::new() }
    }

    /// Resolving a label from a string is denied during anonymous-target
    /// coercion.
    pub fn coerce_label(&self, value: &str) -> (r: Result<ConfiguredLabel, AnonTargetsError>)
        ensures
            r matches Err(e) && e@ == ErrV::CantParseDuringCoerce(value@),
    {
        Err(AnonTargetsError::CantParseDuringCoerce(value.to_owned()))
    }

    /// Resolving a filesystem path is denied during anonymous-target
    /// coercion.
    pub fn coerce_path(&self, value: &str, allow_directory: bool) -> (r: Result<
        String,
        AnonTargetsError,
    >)
        ensures
            r matches Err(e) && e@ == ErrV::CantParseDuringCoerce(value@),
    {
        let _ = allow_directory;
        Err(AnonTargetsError::CantParseDuringCoerce(value.to_owned()))
    }

    /// Resolving a target pattern is denied during anonymous-target
    /// coercion.
    pub fn coerce_target_pattern(&self, pattern: &str) -> (r: Result<String, AnonTargetsError>)
        ensures
            r matches Err(e) && e@ == ErrV::CantParseDuringCoerce(pattern@),
    {
        Err(AnonTargetsError::CantParseDuringCoerce(pattern.to_owned()))
    }

    /// Visiting the literals of a query expression is denied during
    /// anonymous-target coercion.
    pub fn visit_query_function_literals(&self, query: &str) -> (r: Result<(), AnonTargetsError>)
        ensures
            r matches Err(e) && e@ == ErrV::CantParseDuringCoerce(query@),
    {
        Err(AnonTargetsError::CantParseDuringCoerce(query.to_owned()))
    }

    /// No configuration data matches any label in the restricted
    /// context.
    pub fn matching_data(&self, label: &TargetLabel) -> (r: Option<Configuration>)
        ensures
            r is None,
    {
        let _ = label;
        None
    }

    /// The context's own configuration.
    pub fn cfg(&self) -> (r: &Configuration)
        ensures
            *r == self.cfg,
    {
        &self.cfg
    }

    /// The execution configuration equals the context's own.
    pub fn exec_cfg(&self) -> (r: &Configuration)
        ensures
            *r == self.cfg,
    {
        &self.cfg
    }

    /// Every platform's configuration is the context's own.
    pub fn platform_cfg(&self, label: &TargetLabel) -> (r: Result<&Configuration, AnonTargetsError>)
        ensures
            r matches Ok(c) && *c == self.cfg,
    {
        let _ = label;
        Ok(&self.cfg)
    }

    /// The transition mapping is empty for anonymous targets.
    pub fn resolved_transitions(&self) -> (r: &Vec<(String, String)>)
        ensures
            r@ == self.transitions@,
    {
        &self.transitions
    }
}

} // verus!
