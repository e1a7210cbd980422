//! Anonymous targets and their structural identity.
//!
//! An `AnonTarget` is an immutable value: rule type, synthesized name,
//! ordered attribute mapping with unique keys, and configuration.  An
//! `AnonTargetKey` is a thin handle over a shared, reference-counted
//! `AnonTarget`; identity is purely structural, with the attribute
//! mapping compared as a mapping, not as a sequence.

use std::sync::Arc;

use vstd::prelude::*;

use crate::attrs::AttrType;
use crate::attrs::AttrV;
use crate::attrs::ConfiguredAttr;
use crate::attrs::RawV;
use crate::attrs::RawValue;
use crate::attrs::Rule;
use crate::attrs::RuleV;
use crate::attrs::schema_find;
use crate::coerce::coerce_attr_spec;
use crate::coerce::coerce_name_spec;
use crate::coerce::AnonAttrCtx;
use crate::config::CfgV;
use crate::config::Configuration;
use crate::config::resolution_cfg;
use crate::config::ExecutionPlatformResolution;
use crate::errors::AnonTargetsError;
use crate::errors::ErrV;
use crate::label::label_text;
use crate::label::label_wf;
use crate::label::lemma_label_text_injective;
use crate::label::LabelV;
use crate::label::TargetLabel;

verus! {

/// An immutable anonymous target.  Never mutated after construction.
#[derive(Debug)]
pub struct AnonTarget {
    pub rule_type: String,
    pub name: TargetLabel,
    pub attrs: Vec<(String, ConfiguredAttr)>,
    pub cfg: Configuration,
}

/// The mathematical form of an anonymous target: the attribute mapping
/// appears both as its insertion order and as a mapping, because
/// iteration is ordered while identity ignores order.
pub ghost struct TargetV {
    pub rule: Seq<char>,
    pub name: LabelV,
    pub order: Seq<Seq<char>>,
    pub attrs: Map<Seq<char>, AttrV>,
    pub cfg: CfgV,
}

/// The views of a sequence of named configured attributes.
pub open spec fn pairs_view(s: Seq<(String, ConfiguredAttr)>) -> Seq<(Seq<char>, AttrV)> {
    s.map_values(|p: (String, ConfiguredAttr)| (p.0@, p.1@))
}

/// The keys of a sequence of named values, in order.
pub open spec fn pair_keys<T>(s: Seq<(Seq<char>, T)>) -> Seq<Seq<char>> {
    s.map_values(|p: (Seq<char>, T)| p.0)
}

/// The mapping a sequence of named values induces (later entries win,
/// which never matters here because keys are unique).
pub open spec fn pairs_map<T>(s: Seq<(Seq<char>, T)>) -> Map<Seq<char>, T>
    decreases s.len(),
{
    if s.len() == 0 {
        Map::empty()
    } else {
        pairs_map(s.drop_last()).insert(s.last().0, s.last().1)
    }
}

/// Whether the keys of a sequence of named values are pairwise distinct.
pub open spec fn unique_keys<T>(s: Seq<(Seq<char>, T)>) -> bool {
    forall|i: int, j: int| 0 <= i < j < s.len() ==> (#[trigger] s[i]).0 != (#[trigger] s[j]).0
}

/// The mapping induced by a sequence of named values contains exactly
/// its keys; under unique keys it maps each key to that entry's value.
pub proof fn lemma_pairs_map_props<T>(s: Seq<(Seq<char>, T)>)
    ensures
        forall|k: Seq<char>|
            pairs_map(s).dom().contains(k) <==> exists|i: int|
                0 <= i < s.len() && (#[trigger] s[i]).0 == k,
        unique_keys(s) ==> forall|i: int|
            0 <= i < s.len() ==> pairs_map(s)[(#[trigger] s[i]).0] == s[i].1,
    decreases s.len(),
{
    if s.len() > 0 {
        let pre = s.drop_last();
        lemma_pairs_map_props(pre);
        assert forall|k: Seq<char>| pairs_map(s).dom().contains(k) implies exists|i: int|
            0 <= i < s.len() && (#[trigger] s[i]).0 == k by {
            if k == s.last().0 {
                assert((#[trigger] s[s.len() - 1]).0 == k);
            } else {
                assert(pairs_map(s) == pairs_map(pre).insert(s.last().0, s.last().1));
                assert(pairs_map(pre).dom().contains(k));
                let i = choose|i: int| 0 <= i < pre.len() && (#[trigger] pre[i]).0 == k;
                assert(pre =~= s.subrange(0, s.len() - 1));
                assert(pre[i] == s[i]);
                assert((#[trigger] s[i]).0 == k);
            }
        }
        assert forall|k: Seq<char>|
            (exists|i: int| 0 <= i < s.len() && (#[trigger] s[i]).0 == k) implies pairs_map(
            s,
        ).dom().contains(k) by {
            let i = choose|i: int| 0 <= i < s.len() && (#[trigger] s[i]).0 == k;
            assert(pairs_map(s) == pairs_map(pre).insert(s.last().0, s.last().1));
            if i < s.len() - 1 {
                assert(pre =~= s.subrange(0, s.len() - 1));
                assert(pre[i] == s[i]);
                assert((#[trigger] pre[i]).0 == k);
                assert(pairs_map(pre).dom().contains(k));
            } else {
                assert(s.last().0 == k);
            }
        }
        if unique_keys(s) {
            assert(unique_keys(pre)) by {
                assert(forall|i: int|
                    0 <= i < pre.len() ==> (#[trigger] pre[i]) == s[i]);
            }
            assert forall|i: int| 0 <= i < s.len() implies pairs_map(s)[(#[trigger] s[i]).0]
                == s[i].1 by {
                if i == s.len() - 1 {
                } else {
                    assert(s[i].0 != s[s.len() - 1].0);
                    assert(pre[i] == s[i]);
                    assert((#[trigger] pre[i]).0 == s[i].0);
                    assert(pairs_map(pre)[pre[i].0] == pre[i].1);
                }
            }
        }
    }
}

impl View for AnonTarget {
    type V = TargetV;

    open spec fn view(&self) -> TargetV {
        TargetV {
            rule: self.rule_type@,
            name: self.name@,
            order: pair_keys(pairs_view(self.attrs@)),
            attrs: pairs_map(pairs_view(self.attrs@)),
            cfg: self.cfg@,
        }
    }
}

/// Well-formedness of a target: its name is a well-formed label, its
/// attribute names are pairwise distinct, and its mapping holds exactly
/// those names.
pub open spec fn target_wf(t: TargetV) -> bool {
    &&& label_wf(t.name)
    &&& forall|i: int, j: int| 0 <= i < j < t.order.len() ==> t.order[i] != t.order[j]
    &&& forall|k: Seq<char>| t.attrs.dom().contains(k) <==> t.order.contains(k)
}

/// Structural identity of two targets: every field equal, with the
/// attribute mapping compared as a mapping — the order attributes were
/// supplied in does not part two identities.
pub open spec fn target_equiv(a: TargetV, b: TargetV) -> bool {
    a.rule == b.rule && a.name == b.name && a.cfg == b.cfg && a.attrs == b.attrs
}

/// A lightweight handle over a shared anonymous target; equality is the
/// target's structural equality.
#[derive(Debug)]
pub struct AnonTargetKey(pub Arc<AnonTarget>);

impl View for AnonTargetKey {
    type V = TargetV;

    open spec fn view(&self) -> TargetV {
        self.0@
    }
}

/// Relies on `alloc::sync::Arc::clone`: the clone is a second handle to
/// the same shared allocation, so it holds the same target.
#[verifier::external_body]
fn dupe_arc(a: &Arc<AnonTarget>) -> (r: Arc<AnonTarget>)
    ensures
        r == *a,
{
    Arc::clone(a)
}

/// The views of a sequence of named raw attribute values.
pub open spec fn entries_view(s: Seq<(String, RawValue)>) -> Seq<(Seq<char>, RawV)> {
    s.map_values(|p: (String, RawValue)| (p.0@, p.1@))
}

/// Every label value among the raw entries is well-formed; resolved
/// label values are valid by construction where they come from.
pub open spec fn raws_wf(entries: Seq<(Seq<char>, RawV)>) -> bool {
    forall|i: int|
        0 <= i < entries.len() ==> match (#[trigger] entries[i]).1 {
            RawV::Label(cl) => label_wf(cl.target),
            _ => true,
        }
}

/// The fallback name for a target whose attributes carry no `name`: the
/// reserved synthetic cell `anon`, an empty package, and the rule type's
/// name — if that is a valid target name.
pub open spec fn create_name_spec(rule_name: Seq<char>) -> Result<LabelV, ErrV> {
    if crate::text::valid_name(rule_name) {
        Result::Ok(LabelV { cell: "anon"@, package: Seq::empty(), name: rule_name })
    } else {
        Result::Err(ErrV::NotTargetLabel(rule_name))
    }
}

/// One pass over the raw entries, in order: `name` is extracted through
/// name coercion, every other entry is looked up in the schema and
/// coerced; the first failing entry's error is the result.
pub open spec fn build_attrs(rule: RuleV, entries: Seq<(Seq<char>, RawV)>) -> Result<
    (Seq<(Seq<char>, AttrV)>, Option<LabelV>),
    ErrV,
>
    decreases entries.len(),
{
    if entries.len() == 0 {
        Result::Ok((Seq::empty(), Option::None))
    } else {
        match build_attrs(rule, entries.drop_last()) {
            Result::Err(e) => Result::Err(e),
            Result::Ok((acc, nameopt)) => {
                let k = entries.last().0;
                let v = entries.last().1;
                if k == "name"@ {
                    match coerce_name_spec(v) {
                        Result::Err(e) => Result::Err(e),
                        Result::Ok(l) => Result::Ok((acc, Option::Some(l))),
                    }
                } else {
                    match schema_find(rule.schema, k) {
                        Option::None => Result::Err(ErrV::UnknownAttribute(k)),
                        Option::Some(t) => match coerce_attr_spec(t, v) {
                            Result::Err(e) => Result::Err(e),
                            Result::Ok(av) => Result::Ok((acc.push((k, av)), nameopt)),
                        },
                    }
                }
            },
        }
    }
}

/// An error on a prefix of the entries is the error of the whole pass.
proof fn lemma_build_attrs_prefix_err(rule: RuleV, entries: Seq<(Seq<char>, RawV)>, m: int)
    requires
        0 <= m <= entries.len(),
        build_attrs(rule, entries.take(m)) is Err,
    ensures
        build_attrs(rule, entries) == build_attrs(rule, entries.take(m)),
    decreases entries.len(),
{
    if m == entries.len() {
        assert(entries.take(m) =~= entries);
    } else {
        assert(entries.drop_last().take(m) =~= entries.take(m));
        lemma_build_attrs_prefix_err(rule, entries.drop_last(), m);
    }
}

/// Under unique entry keys, a successful pass yields attributes whose
/// keys are pairwise distinct, each being some non-`name` entry key.
proof fn lemma_build_attrs_keys(rule: RuleV, entries: Seq<(Seq<char>, RawV)>)
    requires
        unique_keys(entries),
        build_attrs(rule, entries) is Ok,
    ensures
        unique_keys(build_attrs(rule, entries)->Ok_0.0),
        forall|a: int|
            0 <= a < build_attrs(rule, entries)->Ok_0.0.len() ==> exists|i: int|
                0 <= i < entries.len() && (#[trigger] build_attrs(rule, entries)->Ok_0.0[a]).0
                    == entries[i].0,
    decreases entries.len(),
{
    if entries.len() > 0 {
        let pre = entries.drop_last();
        assert(unique_keys(pre)) by {
            assert(forall|i: int| 0 <= i < pre.len() ==> (#[trigger] pre[i]) == entries[i]);
        }
        lemma_build_attrs_keys(rule, pre);
        let acc_pre = build_attrs(rule, pre)->Ok_0.0;
        let acc = build_attrs(rule, entries)->Ok_0.0;
        assert forall|a: int| 0 <= a < acc.len() implies exists|i: int|
            0 <= i < entries.len() && (#[trigger] acc[a]).0 == entries[i].0 by {
            if a < acc_pre.len() {
                assert(acc[a] == acc_pre[a]);
                let i = choose|i: int|
                    0 <= i < pre.len() && (#[trigger] acc_pre[a]).0 == pre[i].0;
                assert(acc[a].0 == entries[i].0);
            } else {
                assert(acc[a].0 == entries[entries.len() - 1].0);
            }
        }
        assert forall|a: int, b: int| 0 <= a < b < acc.len() implies (#[trigger] acc[a]).0 != (
        #[trigger] acc[b]).0 by {
            if b < acc_pre.len() {
            } else if acc.len() > acc_pre.len() {
                // The last accumulated key is the last entry's key, which
                // differs from every earlier entry's key.
                assert(acc[b].0 == entries[entries.len() - 1].0);
                let i = choose|i: int|
                    0 <= i < pre.len() && (#[trigger] acc_pre[a]).0 == pre[i].0;
                assert(entries[i].0 != entries[entries.len() - 1].0);
            }
        }
    }
}

/// Whether one raw entry coerces successfully under the rule's schema.
pub open spec fn step_ok(rule: RuleV, k: Seq<char>, v: RawV) -> bool {
    if k == "name"@ {
        coerce_name_spec(v) is Ok
    } else {
        match schema_find(rule.schema, k) {
            Option::Some(t) => coerce_attr_spec(t, v) is Ok,
            Option::None => false,
        }
    }
}

/// The configured value a non-`name` entry coerces to, when it does.
pub open spec fn step_attr(rule: RuleV, k: Seq<char>, v: RawV) -> AttrV {
    coerce_attr_spec(schema_find(rule.schema, k)->Some_0, v)->Ok_0
}

/// The pass over the entries is a function of the mapping they induce:
/// it succeeds exactly when every entry coerces, and on success the
/// accumulated attributes are the coercion of the mapping less `name`,
/// and the extracted name is the coercion of the `name` entry.
proof fn lemma_build_attrs_of_map(rule: RuleV, e: Seq<(Seq<char>, RawV)>)
    requires
        unique_keys(e),
    ensures
        (build_attrs(rule, e) is Ok) <==> (forall|k: Seq<char>|
            pairs_map(e).dom().contains(k) ==> step_ok(rule, k, pairs_map(e)[k])),
        build_attrs(rule, e) is Ok ==> {
            let acc = build_attrs(rule, e)->Ok_0.0;
            let no = build_attrs(rule, e)->Ok_0.1;
            &&& pairs_map(acc).dom() == pairs_map(e).dom().remove("name"@)
            &&& forall|k: Seq<char>|
                pairs_map(acc).dom().contains(k) ==> pairs_map(acc)[k] == step_attr(
                    rule,
                    k,
                    pairs_map(e)[k],
                )
            &&& no == if pairs_map(e).dom().contains("name"@) {
                Option::Some(coerce_name_spec(pairs_map(e)["name"@])->Ok_0)
            } else {
                Option::<LabelV>::None
            }
        },
    decreases e.len(),
{
    lemma_pairs_map_props(e);
    if e.len() == 0 {
        assert(pairs_map(e) =~= Map::<Seq<char>, RawV>::empty());
        assert(pairs_map(Seq::<(Seq<char>, AttrV)>::empty()) =~= Map::<Seq<char>, AttrV>::empty());
        assert(pairs_map(Seq::<(Seq<char>, AttrV)>::empty()).dom() =~= pairs_map(
            e,
        ).dom().remove("name"@));
    } else {
        let pre = e.drop_last();
        let k = e.last().0;
        let v = e.last().1;
        assert(unique_keys(pre)) by {
            assert(forall|i: int| 0 <= i < pre.len() ==> (#[trigger] pre[i]) == e[i]);
        }
        lemma_build_attrs_of_map(rule, pre);
        lemma_pairs_map_props(pre);
        assert(pairs_map(e) == pairs_map(pre).insert(k, v));
        assert(!pairs_map(pre).dom().contains(k)) by {
            if pairs_map(pre).dom().contains(k) {
                let i = choose|i: int| 0 <= i < pre.len() && (#[trigger] pre[i]).0 == k;
                assert(pre[i] == e[i]);
                assert(e[i].0 != e[e.len() - 1].0);
            }
        }
        // The induced mapping extends the prefix's by the last entry.
        assert(pairs_map(e).dom() =~= pairs_map(pre).dom().insert(k));
        assert(pairs_map(e)[k] == v);
        assert(forall|k2: Seq<char>|
            pairs_map(pre).dom().contains(k2) && k2 != k ==> pairs_map(e)[k2] == pairs_map(
                pre,
            )[k2]);
        if build_attrs(rule, pre) is Err {
            assert(build_attrs(rule, e) is Err);
            let bad = choose|k2: Seq<char>|
                pairs_map(pre).dom().contains(k2) && !step_ok(rule, k2, pairs_map(pre)[k2]);
            assert(bad != k);
            assert(pairs_map(e)[bad] == pairs_map(pre)[bad]);
            assert(pairs_map(e).dom().contains(bad) && !step_ok(rule, bad, pairs_map(e)[bad]));
        } else {
            let accp = build_attrs(rule, pre)->Ok_0.0;
            let nop = build_attrs(rule, pre)->Ok_0.1;
            if k == "name"@ {
                match coerce_name_spec(v) {
                    Result::Ok(l) => {
                        assert(build_attrs(rule, e) == Result::<
                            (Seq<(Seq<char>, AttrV)>, Option<LabelV>),
                            ErrV,
                        >::Ok((accp, Option::Some(l))));
                        assert(pairs_map(accp).dom() =~= pairs_map(e).dom().remove("name"@));
                        assert forall|k2: Seq<char>|
                            pairs_map(accp).dom().contains(k2) implies pairs_map(accp)[k2]
                            == step_attr(rule, k2, pairs_map(e)[k2]) by {
                            assert(k2 != k);
                            assert(pairs_map(e)[k2] == pairs_map(pre)[k2]);
                        }
                        assert forall|k2: Seq<char>|
                            pairs_map(e).dom().contains(k2) implies step_ok(
                            rule,
                            k2,
                            pairs_map(e)[k2],
                        ) by {
                            if k2 != k {
                                assert(pairs_map(pre).dom().contains(k2));
                                assert(pairs_map(e)[k2] == pairs_map(pre)[k2]);
                            }
                        }
                        assert(pairs_map(e).dom().contains("name"@));
                        assert(build_attrs(rule, e)->Ok_0.1 == Option::Some(
                            coerce_name_spec(pairs_map(e)["name"@])->Ok_0,
                        ));
                    },
                    Result::Err(_) => {
                        assert(build_attrs(rule, e) is Err);
                        assert(pairs_map(e).dom().contains(k));
                        assert(!step_ok(rule, k, pairs_map(e)[k]));
                    },
                }
            } else {
                match schema_find(rule.schema, k) {
                    Option::None => {
                        assert(build_attrs(rule, e) is Err);
                        assert(pairs_map(e).dom().contains(k));
                        assert(!step_ok(rule, k, pairs_map(e)[k]));
                    },
                    Option::Some(t) => {
                        match coerce_attr_spec(t, v) {
                            Result::Err(_) => {
                                assert(build_attrs(rule, e) is Err);
                                assert(pairs_map(e).dom().contains(k));
                                assert(!step_ok(rule, k, pairs_map(e)[k]));
                            },
                            Result::Ok(av) => {
                                let acc = accp.push((k, av));
                                assert(build_attrs(rule, e) == Result::<
                                    (Seq<(Seq<char>, AttrV)>, Option<LabelV>),
                                    ErrV,
                                >::Ok((acc, nop)));
                                assert(acc.drop_last() =~= accp);
                                assert(acc.last() == (k, av));
                                assert(pairs_map(acc) == pairs_map(accp).insert(k, av));
                                assert(pairs_map(acc).dom() =~= pairs_map(e).dom().remove(
                                    "name"@,
                                ));
                                assert forall|k2: Seq<char>|
                                    pairs_map(acc).dom().contains(k2) implies pairs_map(acc)[k2]
                                    == step_attr(rule, k2, pairs_map(e)[k2]) by {
                                    if k2 != k {
                                        assert(pairs_map(accp).dom().contains(k2));
                                        assert(pairs_map(pre).dom().contains(k2));
                                        assert(pairs_map(acc)[k2] == pairs_map(accp)[k2]);
                                        assert(pairs_map(e)[k2] == pairs_map(pre)[k2]);
                                    } else {
                                        assert(pairs_map(acc)[k] == av);
                                    }
                                }
                                assert forall|k2: Seq<char>|
                                    pairs_map(e).dom().contains(k2) implies step_ok(
                                    rule,
                                    k2,
                                    pairs_map(e)[k2],
                                ) by {
                                    if k2 != k {
                                        assert(pairs_map(pre).dom().contains(k2));
                                        assert(pairs_map(e)[k2] == pairs_map(pre)[k2]);
                                    }
                                }
                                assert(build_attrs(rule, e) is Ok);
                                assert(pairs_map(e).dom().contains("name"@) == pairs_map(
                                    pre,
                                ).dom().contains("name"@));
                                assert(pairs_map(e).dom().contains("name"@)
                                    ==> pairs_map(e)["name"@] == pairs_map(pre)["name"@]);
                            },
                        }
                    },
                }
            }
        }
    }
}

/// Two `register` calls with the same rule, the same execution
/// platform, and attribute mappings that are equal as mappings —
/// whatever order their entries were supplied in — build the same
/// structural identity; and if one succeeds, so does the other.
pub proof fn lemma_key_identity_order_independent(
    cfg: CfgV,
    rule: RuleV,
    e1: Seq<(Seq<char>, RawV)>,
    e2: Seq<(Seq<char>, RawV)>,
)
    requires
        unique_keys(e1),
        unique_keys(e2),
        pairs_map(e1) == pairs_map(e2),
        make_key(cfg, rule, e1) is Ok,
    ensures
        make_key(cfg, rule, e2) is Ok,
        target_equiv(make_key(cfg, rule, e1)->Ok_0, make_key(cfg, rule, e2)->Ok_0),
{
    lemma_build_attrs_of_map(rule, e1);
    lemma_build_attrs_of_map(rule, e2);
    let acc1 = build_attrs(rule, e1)->Ok_0.0;
    let acc2 = build_attrs(rule, e2)->Ok_0.0;
    assert(build_attrs(rule, e2) is Ok);
    assert(pairs_map(acc1) =~= pairs_map(acc2)) by {
        assert(pairs_map(acc1).dom() == pairs_map(acc2).dom());
        assert forall|k: Seq<char>|
            pairs_map(acc1).dom().contains(k) implies pairs_map(acc1)[k] == pairs_map(acc2)[k] by {
            assert(pairs_map(acc1)[k] == step_attr(rule, k, pairs_map(e1)[k]));
            assert(pairs_map(acc2)[k] == step_attr(rule, k, pairs_map(e2)[k]));
        }
    }
    assert(build_attrs(rule, e1)->Ok_0.1 == build_attrs(rule, e2)->Ok_0.1);
}

/// What `AnonTargetKey::new` builds: the coerced attributes, the
/// extracted or synthesized name, and the inherited target
/// configuration, assembled into one structural identity.
pub open spec fn make_key(cfg: CfgV, rule: RuleV, entries: Seq<(Seq<char>, RawV)>) -> Result<
    TargetV,
    ErrV,
> {
    match build_attrs(rule, entries) {
        Result::Err(e) => Result::Err(e),
        Result::Ok((acc, nameopt)) => {
            let nm = match nameopt {
                Option::Some(l) => Result::Ok(l),
                Option::None => create_name_spec(rule.name),
            };
            match nm {
                Result::Err(e) => Result::Err(e),
                Result::Ok(n) => Result::Ok(
                    TargetV {
                        rule: rule.name,
                        name: n,
                        order: pair_keys(acc),
                        attrs: pairs_map(acc),
                        cfg,
                    },
                ),
            }
        },
    }
}

impl AnonTargetKey {
    /// A second handle to the same target.
    pub fn dupe(&self) -> (r: Self)
        ensures
            r == *self,
    {
        AnonTargetKey(dupe_arc(&self.0))
    }

    /// Parses the textual form of a concrete target label; see
    /// [`crate::label::parse_target_label`].
    pub fn parse_target_label(x: &str) -> (r: Result<TargetLabel, AnonTargetsError>)
        ensures
            match r {
                Ok(l) => label_wf(l@) && label_text(l@) == x@,
                Err(e) => (forall|l: LabelV| label_wf(l) ==> label_text(l) != x@) && (
                e matches AnonTargetsError::NotTargetLabel(t) && t@ == x@),
            },
    {
        crate::label::parse_target_label(x)
    }

    /// Synthesizes the fallback name for a rule type; see
    /// [`crate::label::create_name`].
    pub fn create_name(rule_name: &str) -> (r: Result<TargetLabel, AnonTargetsError>)
        ensures
            match r {
                Ok(l) => create_name_spec(rule_name@) == Result::<LabelV, ErrV>::Ok(l@)
                    && label_wf(l@),
                Err(e) => create_name_spec(rule_name@) == Result::<LabelV, ErrV>::Err(e@),
            },
    {
        let r = crate::label::create_name(rule_name);
        match r {
            Ok(l) => {
                proof {
                    assert(l@ == LabelV { cell: "anon"@, package: Seq::empty(), name: rule_name@ });
                }
                Ok(l)
            },
            Err(e) => Err(e),
        }
    }

    /// Coerces a `name` attribute value: a resolved label value yields
    /// its unconfigured target label, a string is parsed as a target
    /// label, and any other type is rejected.
    pub fn coerce_name(x: &RawValue) -> (r: Result<TargetLabel, AnonTargetsError>)
        ensures
            match r {
                Ok(l) => coerce_name_spec(x@) == Result::<LabelV, ErrV>::Ok(l@),
                Err(e) => coerce_name_spec(x@) == Result::<LabelV, ErrV>::Err(e@),
            },
    {
        match x {
            RawValue::Label(cl) => Ok(cl.target.duplicate()),
            RawValue::Str(s) => {
                let parsed = Self::parse_target_label(s.as_str());
                match parsed {
                    Ok(l) => {
                        proof {
                            let l0 = choose|c: LabelV| label_wf(c) && label_text(c) == s@;
                            lemma_label_text_injective(l0, l@);
                        }
                        Ok(l)
                    },
                    Err(e) => Err(e),
                }
            },
            RawValue::Bool(_) => Err(
                AnonTargetsError::InvalidNameType { typ: x.kind_name(), value: x.display() },
            ),
        }
    }

    /// Coerces a value at a declared attribute type in "not
    /// independently configurable" mode, then configures it under the
    /// restricted context.  String-to-label parsing goes through the
    /// context and is therefore denied.
    pub fn coerce_attr(attr: &AttrType, x: &RawValue) -> (r: Result<
        ConfiguredAttr,
        AnonTargetsError,
    >)
        ensures
            match r {
                Ok(a) => coerce_attr_spec(*attr, x@) == Result::<AttrV, ErrV>::Ok(a@),
                Err(e) => coerce_attr_spec(*attr, x@) == Result::<AttrV, ErrV>::Err(e@),
            },
    {
        let ctx = AnonAttrCtx::new();
        match attr {
            AttrType::Label => match x {
                RawValue::Label(cl) => Ok(ConfiguredAttr::Label(cl.duplicate())),
                RawValue::Str(s) => match ctx.coerce_label(s.as_str()) {
                    Ok(cl) => Ok(ConfiguredAttr::Label(cl)),
                    Err(e) => Err(e),
                },
                RawValue::Bool(_) => Err(
                    AnonTargetsError::CoercionFailed {
                        expected: String::from_str("label"),
                        value: x.display(),
                    },
                ),
            },
            AttrType::Str => match x {
                RawValue::Str(s) => Ok(ConfiguredAttr::Str(s.clone())),
                _ => Err(
                    AnonTargetsError::CoercionFailed {
                        expected: String::from_str("string"),
                        value: x.display(),
                    },
                ),
            },
            AttrType::Bool => match x {
                RawValue::Bool(b) => Ok(ConfiguredAttr::Bool(*b)),
                _ => Err(
                    AnonTargetsError::CoercionFailed {
                        expected: String::from_str("bool"),
                        value: x.display(),
                    },
                ),
            },
        }
    }

    /// Builds the structural identity of one anonymous target: iterates
    /// the attribute entries once, extracts or synthesizes the `name`,
    /// coerces every other entry against the rule's schema, and stamps
    /// the result with the execution platform's target configuration.
    /// On the first failing entry nothing is built and that entry's
    /// error is returned.
    pub fn new(
        execution_platform: &ExecutionPlatformResolution,
        rule: &Rule,
        attributes: &Vec<(String, RawValue)>,
    ) -> (r: Result<AnonTargetKey, AnonTargetsError>)
        requires
            unique_keys(entries_view(attributes@)),
            raws_wf(entries_view(attributes@)),
        ensures
            match r {
                Ok(key) => make_key(
                    resolution_cfg(execution_platform@),
                    rule@,
                    entries_view(attributes@),
                ) == Result::<TargetV, ErrV>::Ok(key@) && target_wf(key@),
                Err(e) => make_key(
                    resolution_cfg(execution_platform@),
                    rule@,
                    entries_view(attributes@),
                ) == Result::<TargetV, ErrV>::Err(e@),
            },
    {
        let ghost ev = entries_view(attributes@);
        let n = attributes.len();
        let mut attrs: Vec<(String, ConfiguredAttr)> = Vec::new();
        let mut name: Option<TargetLabel> = None;
        let mut i: usize = 0;
        proof {
            assert(ev.take(0) =~= Seq::<(Seq<char>, RawV)>::empty());
            assert(pairs_view(attrs@) =~= Seq::<(Seq<char>, AttrV)>::empty());
        }
        while i < n
            invariant
                n == attributes.len(),
                0 <= i <= n,
                ev == entries_view(attributes@),
                unique_keys(ev),
                raws_wf(ev),
                build_attrs(rule@, ev.take(i as int)) == Result::<
                    (Seq<(Seq<char>, AttrV)>, Option<LabelV>),
                    ErrV,
                >::Ok((pairs_view(attrs@), name_view(&name))),
                name matches Some(l) ==> label_wf(l@),
            decreases n - i,
        {
            let ghost prefix = ev.take(i as int);
            let ghost step = ev.take(i as int + 1);
            proof {
                assert(step.drop_last() =~= prefix);
                assert(step.last() == ev[i as int]);
                assert(ev[i as int] == (attributes@[i as int].0@, attributes@[i as int].1@));
            }
            let k = &attributes[i].0;
            let v = &attributes[i].1;
            if crate::text::str_eq(k.as_str(), "name") {
                match Self::coerce_name(v) {
                    Ok(l) => {
                        proof {
                            assert(label_wf(l@)) by {
                                match v@ {
                                    RawV::Label(cl) => {
                                        assert((#[trigger] ev[i as int]).1 == v@);
                                        assert(l@ == cl.target);
                                    },
                                    RawV::Str(t) => {
                                        let c = choose|c: LabelV|
                                            label_wf(c) && label_text(c) == t;
                                        assert(l@ == c);
                                    },
                                    RawV::Bool(_) => {},
                                }
                            }
                        }
                        name = Some(l);
                    },
                    Err(e) => {
                        proof {
                            lemma_build_attrs_prefix_err(rule@, ev, i as int + 1);
                        }
                        return Err(e);
                    },
                }
            } else {
                let spec = rule.attribute(k.as_str());
                match spec {
                    None => {
                        proof {
                            lemma_build_attrs_prefix_err(rule@, ev, i as int + 1);
                        }
                        return Err(AnonTargetsError::UnknownAttribute(k.clone()));
                    },
                    Some(t) => match Self::coerce_attr(&t, v) {
                        Ok(a) => {
                            let ghost pv_old = pairs_view(attrs@);
                            attrs.push((k.clone(), a));
                            proof {
                                assert(pairs_view(attrs@) =~= pv_old.push((k@, a@)));
                            }
                        },
                        Err(e) => {
                            proof {
                                lemma_build_attrs_prefix_err(rule@, ev, i as int + 1);
                            }
                            return Err(e);
                        },
                    },
                }
            }
            i += 1;
        }
        proof {
            assert(ev.take(n as int) =~= ev);
        }
        let ghost no = name_view(&name);
        let label = match name {
            Some(l) => l,
            None => match Self::create_name(rule.name.as_str()) {
                Ok(l) => l,
                Err(e) => {
                    return Err(e);
                },
            },
        };
        let target = AnonTarget {
            rule_type: rule.name.clone(),
            name: label,
            attrs,
            cfg: execution_platform.cfg(),
        };
        let key = AnonTargetKey(Arc::new(target));
        proof {
            lemma_build_attrs_keys(rule@, ev);
            lemma_pairs_map_props(pairs_view(key.0.attrs@));
            let acc = build_attrs(rule@, ev)->Ok_0.0;
            assert(pairs_view(key.0.attrs@) == acc);
            assert(key@.name == label@);
            assert(match no {
                Option::Some(lv) => label@ == lv,
                Option::None => create_name_spec(rule@.name) == Result::<LabelV, ErrV>::Ok(
                    label@,
                ),
            });
            assert(key@.rule == rule@.name);
            assert(key@.cfg == resolution_cfg(execution_platform@));
            assert(label_wf(key@.name));
            assert(key@.order == pair_keys(acc));
            assert(key@.attrs == pairs_map(acc));
            assert(make_key(resolution_cfg(execution_platform@), rule@, ev) == Result::<
                TargetV,
                ErrV,
            >::Ok(key@));
            assert(pair_keys(acc).len() == acc.len());
            assert forall|a: int, b: int|
                0 <= a < b < key@.order.len() implies key@.order[a] != key@.order[b] by {
                assert(pair_keys(acc)[a] == acc[a].0);
                assert(pair_keys(acc)[b] == acc[b].0);
            }
            assert forall|kk: Seq<char>|
                key@.attrs.dom().contains(kk) <==> key@.order.contains(kk) by {
                if key@.attrs.dom().contains(kk) {
                    let a = choose|a: int| 0 <= a < acc.len() && (#[trigger] acc[a]).0 == kk;
                    assert(key@.order[a] == kk);
                }
                if key@.order.contains(kk) {
                    let a = choose|a: int|
                        0 <= a < key@.order.len() && #[trigger] key@.order[a] == kk;
                    assert((#[trigger] acc[a]).0 == kk);
                }
            }
        }
        Ok(key)
    }
}

/// Distinct attribute names in a target's order mean distinct keys in
/// its attribute pairs.
pub proof fn lemma_wf_unique_pairs(order: Seq<Seq<char>>, pv: Seq<(Seq<char>, AttrV)>)
    requires
        order == pair_keys(pv),
        forall|i: int, j: int| 0 <= i < j < order.len() ==> order[i] != order[j],
    ensures
        unique_keys(pv),
{
    assert forall|i: int, j: int| 0 <= i < j < pv.len() implies (#[trigger] pv[i]).0 != (
    #[trigger] pv[j]).0 by {
        assert(pair_keys(pv)[i] == pv[i].0);
        assert(pair_keys(pv)[j] == pv[j].0);
        assert(order[i] != order[j]);
    }
}

/// The index of the named attribute in an attribute sequence.
pub fn find_attr(attrs: &Vec<(String, ConfiguredAttr)>, key: &str) -> (r: Option<usize>)
    ensures
        match r {
            Some(i) => i < attrs@.len() && attrs@[i as int].0@ == key@,
            None => forall|i: int| 0 <= i < attrs@.len() ==> (#[trigger] attrs@[i]).0@ != key@,
        },
{
    let n = attrs.len();
    let mut i: usize = 0;
    while i < n
        invariant
            n == attrs@.len(),
            0 <= i <= n,
            forall|k: int| 0 <= k < i ==> (#[trigger] attrs@[k]).0@ != key@,
        decreases n - i,
    {
        if crate::text::str_eq(attrs[i].0.as_str(), key) {
            return Some(i);
        }
        i += 1;
    }
    None
}

impl AnonTargetKey {
    /// Whether two keys are the same structural identity: the same rule
    /// type, name and configuration, and the same attribute mapping —
    /// whatever order the attributes were supplied in.
    #[verifier::loop_isolation(false)]
    pub fn same_target(&self, other: &Self) -> (r: bool)
        requires
            target_wf(self@),
            target_wf(other@),
        ensures
            r == target_equiv(self@, other@),
    {
        let ghost pa = pairs_view(self.0.attrs@);
        let ghost pb = pairs_view(other.0.attrs@);
        proof {
            lemma_pairs_map_props(pa);
            lemma_pairs_map_props(pb);
            assert forall|i: int, j: int| 0 <= i < j < pa.len() implies (#[trigger] pa[i]).0 != (
            #[trigger] pa[j]).0 by {
                assert(pair_keys(pa)[i] == pa[i].0);
                assert(pair_keys(pa)[j] == pa[j].0);
                assert(self@.order[i] != self@.order[j]);
            }
            assert forall|i: int, j: int| 0 <= i < j < pb.len() implies (#[trigger] pb[i]).0 != (
            #[trigger] pb[j]).0 by {
                assert(pair_keys(pb)[i] == pb[i].0);
                assert(pair_keys(pb)[j] == pb[j].0);
                assert(other@.order[i] != other@.order[j]);
            }
        }
        if !crate::text::str_eq(self.0.rule_type.as_str(), other.0.rule_type.as_str()) {
            return false;
        }
        if !crate::text::str_eq(self.0.name.cell.as_str(), other.0.name.cell.as_str()) {
            return false;
        }
        if !crate::text::str_eq(self.0.name.package.as_str(), other.0.name.package.as_str()) {
            return false;
        }
        if !crate::text::str_eq(self.0.name.name.as_str(), other.0.name.name.as_str()) {
            return false;
        }
        if !self.0.cfg.same(&other.0.cfg) {
            return false;
        }
        let na = self.0.attrs.len();
        let mut i: usize = 0;
        while i < na
            invariant
                na == self.0.attrs@.len(),
                0 <= i <= na,
                pa == pairs_view(self.0.attrs@),
                pb == pairs_view(other.0.attrs@),
                unique_keys(pa),
                unique_keys(pb),
                target_wf(self@),
                target_wf(other@),
                forall|k: int|
                    0 <= k < i ==> pairs_map(pb).dom().contains((#[trigger] pa[k]).0)
                        && pairs_map(pb)[pa[k].0] == pa[k].1,
            decreases na - i,
        {
            proof {
                assert(pa[i as int] == (self.0.attrs@[i as int].0@, self.0.attrs@[i as int].1@));
            }
            let found = find_attr(&other.0.attrs, self.0.attrs[i].0.as_str());
            match found {
                None => {
                    proof {
                        lemma_pairs_map_props(pb);
                        assert(pairs_map(pa).dom().contains(pa[i as int].0)) by {
                            assert((#[trigger] pa[i as int]).0 == pa[i as int].0);
                        }
                        assert(!pairs_map(pb).dom().contains(pa[i as int].0)) by {
                            assert(forall|j: int|
                                0 <= j < pb.len() ==> (#[trigger] pb[j]).0 == other.0.attrs@[j].0@);
                        }
                    }
                    return false;
                },
                Some(j) => {
                    proof {
                        assert(pb[j as int] == (
                            other.0.attrs@[j as int].0@,
                            other.0.attrs@[j as int].1@,
                        ));
                    }
                    if !self.0.attrs[i].1.same(&other.0.attrs[j].1) {
                        proof {
                            assert(pairs_map(pa)[pa[i as int].0] == pa[i as int].1);
                            assert(pairs_map(pb)[pb[j as int].0] == pb[j as int].1);
                            assert(pairs_map(pa).dom().contains(pa[i as int].0)) by {
                                assert((#[trigger] pa[i as int]).0 == pa[i as int].0);
                            }
                        }
                        return false;
                    }
                    proof {
                        assert(pairs_map(pb).dom().contains(pa[i as int].0)) by {
                            assert((#[trigger] pb[j as int]).0 == pa[i as int].0);
                        }
                        assert(pairs_map(pb)[pb[j as int].0] == pb[j as int].1);
                    }
                },
            }
            i += 1;
        }
        let nb = other.0.attrs.len();
        let mut j: usize = 0;
        while j < nb
            invariant
                nb == other.0.attrs@.len(),
                0 <= j <= nb,
                pa == pairs_view(self.0.attrs@),
                pb == pairs_view(other.0.attrs@),
                unique_keys(pa),
                unique_keys(pb),
                target_wf(self@),
                target_wf(other@),
                forall|k: int|
                    0 <= k < pa.len() ==> pairs_map(pb).dom().contains((#[trigger] pa[k]).0)
                        && pairs_map(pb)[pa[k].0] == pa[k].1,
                forall|k: int|
                    0 <= k < j ==> pairs_map(pa).dom().contains((#[trigger] pb[k]).0),
            decreases nb - j,
        {
            proof {
                assert(pb[j as int] == (other.0.attrs@[j as int].0@, other.0.attrs@[j as int].1@));
            }
            let found = find_attr(&self.0.attrs, other.0.attrs[j].0.as_str());
            match found {
                None => {
                    proof {
                        assert(pairs_map(pb).dom().contains(pb[j as int].0)) by {
                            assert((#[trigger] pb[j as int]).0 == pb[j as int].0);
                        }
                        assert(!pairs_map(pa).dom().contains(pb[j as int].0)) by {
                            assert(forall|k: int|
                                0 <= k < pa.len() ==> (#[trigger] pa[k]).0 == self.0.attrs@[k].0@);
                        }
                    }
                    return false;
                },
                Some(m) => {
                    proof {
                        assert(pa[m as int] == (
                            self.0.attrs@[m as int].0@,
                            self.0.attrs@[m as int].1@,
                        ));
                        assert(pairs_map(pa).dom().contains(pb[j as int].0)) by {
                            assert((#[trigger] pa[m as int]).0 == pb[j as int].0);
                        }
                    }
                },
            }
            j += 1;
        }
        proof {
            assert(pairs_map(pa) =~= pairs_map(pb)) by {
                assert forall|k: Seq<char>|
                    pairs_map(pa).dom().contains(k) implies pairs_map(pb).dom().contains(k)
                    && pairs_map(pb)[k] == pairs_map(pa)[k] by {
                    let w = choose|w: int| 0 <= w < pa.len() && (#[trigger] pa[w]).0 == k;
                    assert(pairs_map(pa)[pa[w].0] == pa[w].1);
                }
                assert forall|k: Seq<char>|
                    pairs_map(pb).dom().contains(k) implies pairs_map(pa).dom().contains(k) by {
                    let w = choose|w: int| 0 <= w < pb.len() && (#[trigger] pb[w]).0 == k;
                }
            }
        }
        true
    }
}

/// The view of a pending optional name.
pub open spec fn name_view(n: &Option<TargetLabel>) -> Option<LabelV> {
    match n {
        Option::Some(l) => Option::Some(l@),
        Option::None => Option::None,
    }
}

} // verus!
