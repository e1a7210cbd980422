//! Attribute values, declared attribute types, and rule schemas.

use vstd::prelude::*;

use crate::config::CfgV;
use crate::config::Configuration;
use crate::label::label_text;
use crate::label::LabelV;
use crate::label::TargetLabel;

verus! {

/// A label together with the configuration it was resolved under.
#[derive(Debug)]
pub struct ConfiguredLabel {
    pub target: TargetLabel,
    pub cfg: Configuration,
}

/// The mathematical form of a configured label.
pub ghost struct ConfiguredLabelV {
    pub target: LabelV,
    pub cfg: CfgV,
}

impl View for ConfiguredLabel {
    type V = ConfiguredLabelV;

    open spec fn view(&self) -> ConfiguredLabelV {
        ConfiguredLabelV { target: self.target@, cfg: self.cfg@ }
    }
}

impl ConfiguredLabel {
    /// An exact copy of the configured label.
    pub fn duplicate(&self) -> (r: Self)
        ensures
            r@ == self@,
    {
        ConfiguredLabel { target: self.target.duplicate(), cfg: self.cfg.duplicate() }
    }
}

/// A raw scripting value handed to the coercer by a rule implementation.
#[derive(Debug)]
pub enum RawValue {
    /// An already resolved label value.
    Label(ConfiguredLabel),
    /// A string value.
    Str(String),
    /// A boolean value.
    Bool(bool),
}

/// The mathematical form of a raw value.
pub ghost enum RawV {
    Label(ConfiguredLabelV),
    Str(Seq<char>),
    Bool(bool),
}

impl View for RawValue {
    type V = RawV;

    open spec fn view(&self) -> RawV {
        match self {
            RawValue::Label(l) => RawV::Label(l@),
            RawValue::Str(s) => RawV::Str(s@),
            RawValue::Bool(b) => RawV::Bool(*b),
        }
    }
}

/// The scripting-level type name of a raw value.
pub open spec fn raw_type_name(v: RawV) -> Seq<char> {
    match v {
        RawV::Label(_) => "label"@,
        RawV::Str(_) => "string"@,
        RawV::Bool(_) => "bool"@,
    }
}

/// The display form of a raw value, used in error reports.
pub open spec fn raw_display(v: RawV) -> Seq<char> {
    match v {
        RawV::Label(l) => label_text(l.target),
        RawV::Str(s) => s,
        RawV::Bool(b) => if b {
            "True"@
        } else {
            "False"@
        },
    }
}

impl RawValue {
    /// An exact copy of the raw value.
    pub fn duplicate(&self) -> (r: Self)
        ensures
            r@ == self@,
    {
        match self {
            RawValue::Label(l) => RawValue::Label(l.duplicate()),
            RawValue::Str(s) => RawValue::Str(s.clone()),
            RawValue::Bool(b) => RawValue::Bool(*b),
        }
    }

    /// The scripting-level type name of the value.
    pub fn kind_name(&self) -> (r: String)
        ensures
            r@ == raw_type_name(self@),
    {
        match self {
            RawValue::Label(_) => String::from_str("label"),
            RawValue::Str(_) => String::from_str("string"),
            RawValue::Bool(_) => String::from_str("bool"),
        }
    }

    /// The display form of the value.
    pub fn display(&self) -> (r: String)
        ensures
            r@ == raw_display(self@),
    {
        match self {
            RawValue::Label(l) => l.target.to_string(),
            RawValue::Str(s) => s.clone(),
            RawValue::Bool(b) => if *b {
                String::from_str("True")
            } else {
                String::from_str("False")
            },
        }
    }
}

/// The declared type of an attribute in a rule's schema.
#[derive(PartialEq, Eq, Structural, Clone, Copy, Debug)]
pub enum AttrType {
    /// Expects an already resolved label value.
    Label,
    /// Expects a string value.
    Str,
    /// Expects a boolean value.
    Bool,
}

/// A canonical, fully configured attribute value.
#[derive(Debug)]
pub enum ConfiguredAttr {
    Label(ConfiguredLabel),
    Str(String),
    Bool(bool),
}

/// The mathematical form of a configured attribute value.
pub ghost enum AttrV {
    Label(ConfiguredLabelV),
    Str(Seq<char>),
    Bool(bool),
}

impl View for ConfiguredAttr {
    type V = AttrV;

    open spec fn view(&self) -> AttrV {
        match self {
            ConfiguredAttr::Label(l) => AttrV::Label(l@),
            ConfiguredAttr::Str(s) => AttrV::Str(s@),
            ConfiguredAttr::Bool(b) => AttrV::Bool(*b),
        }
    }
}

/// The display form of a configured attribute, used when a rule
/// implementation's provider takes its value from an attribute.
pub open spec fn attr_display(v: AttrV) -> Seq<char> {
    match v {
        AttrV::Label(l) => label_text(l.target),
        AttrV::Str(s) => s,
        AttrV::Bool(b) => if b {
            "True"@
        } else {
            "False"@
        },
    }
}

impl ConfiguredAttr {
    /// An exact copy of the configured attribute.
    pub fn duplicate(&self) -> (r: Self)
        ensures
            r@ == self@,
    {
        match self {
            ConfiguredAttr::Label(l) => ConfiguredAttr::Label(l.duplicate()),
            ConfiguredAttr::Str(s) => ConfiguredAttr::Str(s.clone()),
            ConfiguredAttr::Bool(b) => ConfiguredAttr::Bool(*b),
        }
    }

    /// The display form of the attribute value.
    pub fn display(&self) -> (r: String)
        ensures
            r@ == attr_display(self@),
    {
        match self {
            ConfiguredAttr::Label(l) => l.target.to_string(),
            ConfiguredAttr::Str(s) => s.clone(),
            ConfiguredAttr::Bool(b) => if *b {
                String::from_str("True")
            } else {
                String::from_str("False")
            },
        }
    }

    /// Whether two configured attributes hold the same value.
    pub fn same(&self, other: &Self) -> (r: bool)
        ensures
            r == (self@ == other@),
    {
        match (self, other) {
            (ConfiguredAttr::Label(a), ConfiguredAttr::Label(b)) => crate::text::str_eq(
                a.target.cell.as_str(),
                b.target.cell.as_str(),
            ) && crate::text::str_eq(a.target.package.as_str(), b.target.package.as_str())
                && crate::text::str_eq(a.target.name.as_str(), b.target.name.as_str())
                && a.cfg.same(&b.cfg),
            (ConfiguredAttr::Str(a), ConfiguredAttr::Str(b)) => crate::text::str_eq(
                a.as_str(),
                b.as_str(),
            ),
            (ConfiguredAttr::Bool(a), ConfiguredAttr::Bool(b)) => *a == *b,
            _ => false,
        }
    }
}

/// A rule: its type name and its declared attribute schema, an ordered
/// mapping from attribute name to declared type.
#[derive(Debug)]
pub struct Rule {
    pub name: String,
    pub schema: Vec<(String, AttrType)>,
}

/// The mathematical form of a rule.
pub ghost struct RuleV {
    pub name: Seq<char>,
    pub schema: Seq<(Seq<char>, AttrType)>,
}

impl View for Rule {
    type V = RuleV;

    open spec fn view(&self) -> RuleV {
        RuleV { name: self.name@, schema: self.schema@.map_values(|p: (String, AttrType)| (p.0@, p.1)) }
    }
}

/// The declared type of the named attribute, by first match in the
/// schema.
pub open spec fn schema_find(schema: Seq<(Seq<char>, AttrType)>, key: Seq<char>) -> Option<AttrType>
    decreases schema.len(),
{
    if schema.len() == 0 {
        Option::None
    } else if schema[0].0 == key {
        Option::Some(schema[0].1)
    } else {
        schema_find(schema.drop_first(), key)
    }
}

impl Rule {
    /// Looks the named attribute up in the declared schema.
    pub fn attribute(&self, key: &str) -> (r: Option<AttrType>)
        ensures
            r == schema_find(self@.schema, key@),
    {
        let n = self.schema.len();
        proof {
            assert(self@.schema.subrange(0, n as int) =~= self@.schema);
        }
        let mut i: usize = 0;
        while i < n
            invariant
                n == self.schema.len(),
                0 <= i <= n,
                schema_find(self@.schema, key@) == schema_find(
                    self@.schema.subrange(i as int, n as int),
                    key@,
                ),
            decreases n - i,
        {
            proof {
                assert(self@.schema[i as int] == (self.schema@[i as int].0@, self.schema@[i as int].1));
            }
            if crate::text::str_eq(self.schema[i].0.as_str(), key) {
                proof {
                    assert(self@.schema.subrange(i as int, n as int)[0] == self@.schema[i as int]);
                }
                return Some(self.schema[i].1);
            }
            proof {
                assert(self@.schema.subrange(i as int, n as int)[0] == self@.schema[i as int]);
                assert(self@.schema.subrange(i as int, n as int).drop_first() =~= self@.schema
                    .subrange(i as int + 1, n as int));
            }
            i += 1;
        }
        proof {
            assert(self@.schema.subrange(n as int, n as int) =~= Seq::<(Seq<char>, AttrType)>::empty());
        }
        None
    }

    /// An exact copy of the rule.
    pub fn duplicate(&self) -> (r: Self)
        ensures
            r@ == self@,
    {
        let mut schema: Vec<(String, AttrType)> = Vec::new();
        let n = self.schema.len();
        let mut i: usize = 0;
        while i < n
            invariant
                n == self.schema.len(),
                0 <= i <= n,
                schema@.len() == i,
                forall|k: int|
                    0 <= k < i ==> (#[trigger] schema@[k]).0@ == self.schema@[k].0@ && schema@[k].1
                        == self.schema@[k].1,
            decreases n - i,
        {
            schema.push((self.schema[i].0.clone(), self.schema[i].1));
            i += 1;
        }
        let r = Rule { name: self.name.clone(), schema };
        proof {
            assert(r@.schema =~= self@.schema) by {
                assert forall|k: int| 0 <= k < n implies r@.schema[k] == self@.schema[k] by {
                    assert(r@.schema[k] == (r.schema@[k].0@, r.schema@[k].1));
                    assert(self@.schema[k] == (self.schema@[k].0@, self.schema@[k].1));
                }
            }
        }
        r
    }
}

} // verus!
