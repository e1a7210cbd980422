//! The modeled incremental-computation engine and the analysis routine.
//!
//! The engine holds what the external collaborators supply — the
//! rule-implementation table and the available execution platforms —
//! together with the memoization cache keyed by structural identity and
//! a log of the analyses actually run.  Resolving a key consults the
//! cache first; concurrent duplicate requests for one identity therefore
//! share a single computation, and the log shows each identity at most
//! once.  A failed analysis is cached like a successful one: a later
//! identical request reuses the failure rather than retrying, the same
//! policy the memoizing engine applies to any computed value.

use vstd::prelude::*;

use crate::attrs::attr_display;
use crate::attrs::ConfiguredAttr;
use crate::attrs::RawV;
use crate::attrs::RawValue;
use crate::attrs::Rule;
use crate::config::CfgV;
use crate::config::ExecutionPlatform;
use crate::config::PlatformV;
use crate::errors::AnonTargetsError;
use crate::errors::ErrV;
use crate::config::ExecutionPlatformResolution;
use crate::key::entries_view;
use crate::key::lemma_pairs_map_props;
use crate::key::pairs_map;
use crate::key::pairs_view;
use crate::key::raws_wf;
use crate::key::target_equiv;
use crate::key::target_wf;
use crate::key::unique_keys;
use crate::key::AnonTargetKey;
use crate::key::TargetV;

verus! {

/// One typed result a target's analysis produces for consumers.
#[derive(Debug)]
pub struct Provider {
    pub name: String,
    pub value: String,
}

/// The mathematical form of a provider.
pub ghost struct ProviderV {
    pub name: Seq<char>,
    pub value: Seq<char>,
}

impl View for Provider {
    type V = ProviderV;

    open spec fn view(&self) -> ProviderV {
        ProviderV { name: self.name@, value: self.value@ }
    }
}

impl Provider {
    /// An exact copy of the provider.
    pub fn duplicate(&self) -> (r: Self)
        ensures
            r@ == self@,
    {
        Provider { name: self.name.clone(), value: self.value.clone() }
    }
}

/// How a rule implementation fills one provider's value: a literal, or
/// the display form of one of the target's resolved attributes.
#[derive(Debug)]
pub enum ProviderTemplate {
    Lit(String),
    FromAttr(String),
}

/// The mathematical form of a provider template.
pub ghost enum TemplateV {
    Lit(Seq<char>),
    FromAttr(Seq<char>),
}

impl View for ProviderTemplate {
    type V = TemplateV;

    open spec fn view(&self) -> TemplateV {
        match self {
            ProviderTemplate::Lit(s) => TemplateV::Lit(s@),
            ProviderTemplate::FromAttr(s) => TemplateV::FromAttr(s@),
        }
    }
}

/// What invoking a rule implementation declares: a provider list built
/// from the resolved attributes, or a failure.
#[derive(Debug)]
pub enum RuleOutcome {
    Providers(Vec<(String, ProviderTemplate)>),
    Fail(String),
}

/// The mathematical form of a rule outcome.
pub ghost enum OutcomeV {
    Providers(Seq<(Seq<char>, TemplateV)>),
    Fail(Seq<char>),
}

impl View for RuleOutcome {
    type V = OutcomeV;

    open spec fn view(&self) -> OutcomeV {
        match self {
            RuleOutcome::Providers(ps) => OutcomeV::Providers(
                ps@.map_values(|p: (String, ProviderTemplate)| (p.0@, p.1@)),
            ),
            RuleOutcome::Fail(m) => OutcomeV::Fail(m@),
        }
    }
}

/// One anonymous target a rule implementation registers during its own
/// analysis: the rule type it names and the raw attribute mapping.
#[derive(Debug)]
pub struct NestedReg {
    pub rule: String,
    pub attrs: Vec<(String, RawValue)>,
}

/// The mathematical form of a nested registration.
pub ghost struct NestedV {
    pub rule: Seq<char>,
    pub attrs: Seq<(Seq<char>, RawV)>,
}

impl View for NestedReg {
    type V = NestedV;

    open spec fn view(&self) -> NestedV {
        NestedV { rule: self.rule@, attrs: entries_view(self.attrs@) }
    }
}

/// A rule implementation body, as the data that determines what it
/// declares: its outcome, the actions it records, and the anonymous
/// targets it registers re-entrantly during its own analysis.
#[derive(Debug)]
pub struct RuleImpl {
    pub outcome: RuleOutcome,
    pub actions: Vec<String>,
    pub nested: Vec<NestedReg>,
}

/// The mathematical form of a rule implementation.
pub ghost struct RuleImplV {
    pub outcome: OutcomeV,
    pub actions: Seq<Seq<char>>,
    pub nested: Seq<NestedV>,
}

impl View for RuleImpl {
    type V = RuleImplV;

    open spec fn view(&self) -> RuleImplV {
        RuleImplV {
            outcome: self.outcome@,
            actions: self.actions@.map_values(|s: String| s@),
            nested: self.nested@.map_values(|n: NestedReg| n@),
        }
    }
}

/// A rule known to the engine: its schema and its implementation.
#[derive(Debug)]
pub struct RuleDef {
    pub rule: Rule,
    pub body: RuleImpl,
}

/// The mathematical form of a rule definition.
pub ghost struct RuleDefV {
    pub rule: crate::attrs::RuleV,
    pub body: RuleImplV,
}

impl View for RuleDef {
    type V = RuleDefV;

    open spec fn view(&self) -> RuleDefV {
        RuleDefV { rule: self.rule@, body: self.body@ }
    }
}

/// The recorded deferred-action table of one analysis.
#[derive(Debug)]
pub struct DeferredTable {
    pub actions: Vec<String>,
}

impl View for DeferredTable {
    type V = Seq<Seq<char>>;

    open spec fn view(&self) -> Seq<Seq<char>> {
        self.actions@.map_values(|s: String| s@)
    }
}

/// The packaged result of one analysis: the frozen provider collection
/// and the deferred-action table.
#[derive(Debug)]
pub struct AnalysisResult {
    pub providers: Vec<Provider>,
    pub deferred: DeferredTable,
}

/// The mathematical form of an analysis result.
pub ghost struct AnalysisV {
    pub providers: Seq<ProviderV>,
    pub actions: Seq<Seq<char>>,
}

impl View for AnalysisResult {
    type V = AnalysisV;

    open spec fn view(&self) -> AnalysisV {
        AnalysisV {
            providers: self.providers@.map_values(|p: Provider| p@),
            actions: self.deferred@,
        }
    }
}

impl AnalysisResult {
    /// An exact copy of the analysis result.
    pub fn duplicate(&self) -> (r: Self)
        ensures
            r@ == self@,
    {
        let mut providers: Vec<Provider> = Vec::new();
        let n = self.providers.len();
        let mut i: usize = 0;
        while i < n
            invariant
                n == self.providers@.len(),
                0 <= i <= n,
                providers@.len() == i,
                forall|k: int| 0 <= k < i ==> (#[trigger] providers@[k])@ == self.providers@[k]@,
            decreases n - i,
        {
            providers.push(self.providers[i].duplicate());
            i += 1;
        }
        let mut actions: Vec<String> = Vec::new();
        let m = self.deferred.actions.len();
        let mut j: usize = 0;
        while j < m
            invariant
                m == self.deferred.actions@.len(),
                0 <= j <= m,
                actions@.len() == j,
                forall|k: int| 0 <= k < j ==> (#[trigger] actions@[k])@ == self.deferred.actions@[k]@,
            decreases m - j,
        {
            actions.push(self.deferred.actions[j].clone());
            j += 1;
        }
        let r = AnalysisResult { providers, deferred: DeferredTable { actions } };
        proof {
            assert(r@.providers =~= self@.providers);
            assert(r@.actions =~= self@.actions);
        }
        r
    }
}

/// The first rule definition of the given rule-type name.
pub open spec fn rules_find(rules: Seq<RuleDefV>, name: Seq<char>) -> Option<RuleDefV>
    decreases rules.len(),
{
    if rules.len() == 0 {
        Option::None
    } else if rules[0].rule.name == name {
        Option::Some(rules[0])
    } else {
        rules_find(rules.drop_first(), name)
    }
}

/// The first execution platform whose configuration matches.
pub open spec fn platform_find(platforms: Seq<PlatformV>, cfg: CfgV) -> Option<PlatformV>
    decreases platforms.len(),
{
    if platforms.len() == 0 {
        Option::None
    } else if platforms[0].cfg == cfg {
        Option::Some(platforms[0])
    } else {
        platform_find(platforms.drop_first(), cfg)
    }
}

/// The value one provider template renders to against a target's
/// resolved attributes.
pub open spec fn render_template(t: TargetV, tmpl: TemplateV) -> Result<Seq<char>, ErrV> {
    match tmpl {
        TemplateV::Lit(s) => Result::Ok(s),
        TemplateV::FromAttr(k) => if t.attrs.dom().contains(k) {
            Result::Ok(attr_display(t.attrs[k]))
        } else {
            Result::Err(ErrV::UnknownAttribute(k))
        },
    }
}

/// The provider list a rule implementation's templates render to, or
/// the first failing template's error.
pub open spec fn render_providers(t: TargetV, ps: Seq<(Seq<char>, TemplateV)>) -> Result<
    Seq<ProviderV>,
    ErrV,
>
    decreases ps.len(),
{
    if ps.len() == 0 {
        Result::Ok(Seq::empty())
    } else {
        match render_providers(t, ps.drop_last()) {
            Result::Err(e) => Result::Err(e),
            Result::Ok(acc) => match render_template(t, ps.last().1) {
                Result::Err(e) => Result::Err(e),
                Result::Ok(v) => Result::Ok(acc.push(ProviderV { name: ps.last().0, value: v })),
            },
        }
    }
}

/// An error on a prefix of the templates is the error of the whole
/// rendering.
proof fn lemma_render_prefix_err(t: TargetV, ps: Seq<(Seq<char>, TemplateV)>, m: int)
    requires
        0 <= m <= ps.len(),
        render_providers(t, ps.take(m)) is Err,
    ensures
        render_providers(t, ps) == render_providers(t, ps.take(m)),
    decreases ps.len(),
{
    if m == ps.len() {
        assert(ps.take(m) =~= ps);
    } else {
        assert(ps.drop_last().take(m) =~= ps.take(m));
        lemma_render_prefix_err(t, ps.drop_last(), m);
    }
}

/// What analyzing a target yields, as a function of the engine's rule
/// table and platform set alone: the rule implementation is looked up,
/// the execution platform is matched against the target's stored
/// configuration, the implementation's declared providers are rendered
/// against the resolved attributes, and the recorded actions become the
/// deferred table.  Each missing collaborator yields its error.
pub open spec fn analysis_spec(
    rules: Seq<RuleDefV>,
    platforms: Seq<PlatformV>,
    t: TargetV,
) -> Result<AnalysisV, ErrV> {
    match rules_find(rules, t.rule) {
        Option::None => Result::Err(ErrV::Wrapped(t.rule)),
        Option::Some(def) => match platform_find(platforms, t.cfg) {
            Option::None => Result::Err(ErrV::Wrapped("no matching execution platform"@)),
            Option::Some(_) => match def.body.outcome {
                OutcomeV::Fail(m) => Result::Err(ErrV::Wrapped(m)),
                OutcomeV::Providers(ps) => match render_providers(t, ps) {
                    Result::Err(e) => Result::Err(e),
                    Result::Ok(provs) => Result::Ok(
                        AnalysisV { providers: provs, actions: def.body.actions },
                    ),
                },
            },
        },
    }
}

/// How many nested registrations the target's rule implementation
/// makes.
pub open spec fn nested_count(rules: Seq<RuleDefV>, t: TargetV) -> int {
    match rules_find(rules, t.rule) {
        Option::Some(def) => def.body.nested.len() as int,
        Option::None => 0,
    }
}

/// Validity of the rule table's data: every nested registration's
/// attribute mapping has unique keys and well-formed label values.
pub open spec fn rules_wf(rules: Seq<RuleDefV>) -> bool {
    forall|d: int, n: int|
        0 <= d < rules.len() && 0 <= n < rules[d].body.nested.len() ==> unique_keys(
            (#[trigger] rules[d].body.nested[n]).attrs,
        ) && raws_wf(rules[d].body.nested[n].attrs)
}

/// What analysis yields depends only on the target's structural
/// identity, never on the order its attributes were supplied in.
pub proof fn lemma_analysis_spec_equiv(
    rules: Seq<RuleDefV>,
    platforms: Seq<PlatformV>,
    a: TargetV,
    b: TargetV,
)
    requires
        target_equiv(a, b),
    ensures
        analysis_spec(rules, platforms, a) == analysis_spec(rules, platforms, b),
{
    match rules_find(rules, a.rule) {
        Option::Some(def) => match def.body.outcome {
            OutcomeV::Providers(ps) => {
                lemma_render_equiv(a, b, ps);
            },
            OutcomeV::Fail(_) => {},
        },
        Option::None => {},
    }
}

proof fn lemma_render_equiv(a: TargetV, b: TargetV, ps: Seq<(Seq<char>, TemplateV)>)
    requires
        a.attrs == b.attrs,
    ensures
        render_providers(a, ps) == render_providers(b, ps),
    decreases ps.len(),
{
    if ps.len() > 0 {
        lemma_render_equiv(a, b, ps.drop_last());
    }
}

/// The view of a resolution outcome.
pub open spec fn outcome_view(r: &Result<AnalysisResult, AnonTargetsError>) -> Result<
    AnalysisV,
    ErrV,
> {
    match r {
        Result::Ok(a) => Result::Ok(a@),
        Result::Err(e) => Result::Err(e@),
    }
}

/// The cached outcome stored under the first structurally equal key.
pub open spec fn cache_find(
    cache: Seq<(TargetV, Result<AnalysisV, ErrV>)>,
    t: TargetV,
) -> Option<Result<AnalysisV, ErrV>>
    decreases cache.len(),
{
    if cache.len() == 0 {
        Option::None
    } else if target_equiv(cache[0].0, t) {
        Option::Some(cache[0].1)
    } else {
        cache_find(cache.drop_first(), t)
    }
}

/// The cache cannot tell two structurally equal identities apart:
/// promises registered under equal keys are bound to the same result.
pub proof fn lemma_cache_find_respects_identity(
    cache: Seq<(TargetV, Result<AnalysisV, ErrV>)>,
    a: TargetV,
    b: TargetV,
)
    requires
        target_equiv(a, b),
    ensures
        cache_find(cache, a) == cache_find(cache, b),
    decreases cache.len(),
{
    if cache.len() > 0 {
        lemma_cache_find_respects_identity(cache.drop_first(), a, b);
    }
}

/// Every identity the first cache answers, the second answers the same
/// way: resolution only ever extends the cache.
pub open spec fn cache_preserved(
    a: Seq<(TargetV, Result<AnalysisV, ErrV>)>,
    b: Seq<(TargetV, Result<AnalysisV, ErrV>)>,
) -> bool {
    forall|t: TargetV| #[trigger] cache_find(a, t) is Some ==> cache_find(b, t) == cache_find(a, t)
}

/// The second log begins with the whole first log.
pub open spec fn log_extends(a: Seq<TargetV>, b: Seq<TargetV>) -> bool {
    a.len() <= b.len() && forall|i: int| 0 <= i < a.len() ==> #[trigger] a[i] == b[i]
}

proof fn lemma_cache_find_hit(cache: Seq<(TargetV, Result<AnalysisV, ErrV>)>, t: TargetV, i: int)
    requires
        0 <= i < cache.len(),
        target_equiv(cache[i].0, t),
        forall|k: int| 0 <= k < i ==> !target_equiv((#[trigger] cache[k]).0, t),
    ensures
        cache_find(cache, t) == Option::Some(cache[i].1),
    decreases i,
{
    if i > 0 {
        assert(!target_equiv(cache[0].0, t));
        let rest = cache.drop_first();
        assert(rest[i - 1] == cache[i]);
        assert(forall|k: int| 0 <= k < i - 1 ==> (#[trigger] rest[k]) == cache[k + 1]);
        lemma_cache_find_hit(rest, t, i - 1);
    }
}

proof fn lemma_cache_find_none(cache: Seq<(TargetV, Result<AnalysisV, ErrV>)>, t: TargetV)
    requires
        forall|k: int| 0 <= k < cache.len() ==> !target_equiv((#[trigger] cache[k]).0, t),
    ensures
        cache_find(cache, t) is None,
    decreases cache.len(),
{
    if cache.len() > 0 {
        let rest = cache.drop_first();
        assert(forall|k: int| 0 <= k < rest.len() ==> (#[trigger] rest[k]) == cache[k + 1]);
        lemma_cache_find_none(rest, t);
    }
}

/// Extending the cache never changes what earlier identities find;
/// a new identity finds the new entry.
pub proof fn lemma_cache_find_push(
    cache: Seq<(TargetV, Result<AnalysisV, ErrV>)>,
    p: (TargetV, Result<AnalysisV, ErrV>),
    t: TargetV,
)
    ensures
        cache_find(cache.push(p), t) == match cache_find(cache, t) {
            Option::Some(v) => Option::Some(v),
            Option::None => if target_equiv(p.0, t) {
                Option::Some(p.1)
            } else {
                Option::None
            },
        },
    decreases cache.len(),
{
    let c2 = cache.push(p);
    if cache.len() == 0 {
        assert(c2[0] == p);
        assert(c2.drop_first() =~= Seq::<(TargetV, Result<AnalysisV, ErrV>)>::empty());
        assert(cache_find(Seq::<(TargetV, Result<AnalysisV, ErrV>)>::empty(), t) is None);
        if target_equiv(p.0, t) {
            assert(cache_find(c2, t) == Option::Some(p.1));
        } else {
            assert(cache_find(c2, t) == cache_find(c2.drop_first(), t));
        }
    } else {
        assert(c2[0] == cache[0]);
        assert(c2.drop_first() =~= cache.drop_first().push(p));
        lemma_cache_find_push(cache.drop_first(), p, t);
        if target_equiv(cache[0].0, t) {
            assert(cache_find(cache, t) == Option::Some(cache[0].1));
            assert(cache_find(c2, t) == Option::Some(c2[0].1));
        } else {
            assert(cache_find(c2, t) == cache_find(c2.drop_first(), t));
            assert(cache_find(cache, t) == cache_find(cache.drop_first(), t));
        }
    }
}

/// How many analyses in the log were run for the given identity.
pub open spec fn count_equiv(log: Seq<TargetV>, t: TargetV) -> int
    decreases log.len(),
{
    if log.len() == 0 {
        0
    } else {
        count_equiv(log.drop_first(), t) + if target_equiv(log[0], t) {
            1int
        } else {
            0int
        }
    }
}

/// The modeled engine.
#[derive(Debug)]
pub struct Engine {
    pub rules: Vec<RuleDef>,
    pub platforms: Vec<ExecutionPlatform>,
    pub cache: Vec<(AnonTargetKey, Result<AnalysisResult, AnonTargetsError>)>,
    pub log: Vec<AnonTargetKey>,
}

/// The mathematical form of the engine.
pub ghost struct EngineV {
    pub rules: Seq<RuleDefV>,
    pub platforms: Seq<PlatformV>,
    pub cache: Seq<(TargetV, Result<AnalysisV, ErrV>)>,
    pub log: Seq<TargetV>,
}

impl View for Engine {
    type V = EngineV;

    open spec fn view(&self) -> EngineV {
        EngineV {
            rules: self.rules@.map_values(|d: RuleDef| d@),
            platforms: self.platforms@.map_values(|p: ExecutionPlatform| p@),
            cache: self.cache@.map_values(
                |c: (AnonTargetKey, Result<AnalysisResult, AnonTargetsError>)|
                    (c.0@, outcome_view(&c.1)),
            ),
            log: self.log@.map_values(|k: AnonTargetKey| k@),
        }
    }
}

/// Well-formedness of the engine: the rule table's data is valid;
/// cached identities are pairwise distinct and well-formed; the log
/// records exactly the identities whose analyses were run cold — one
/// cache entry each; and the cache only ever holds what the analysis
/// routine determines — a cached success is the analysis function of
/// its identity, and an identity whose analysis cannot even start holds
/// that failure.
pub open spec fn engine_wf(e: EngineV) -> bool {
    &&& rules_wf(e.rules)
    &&& forall|i: int, j: int|
        0 <= i < j < e.cache.len() ==> !target_equiv((#[trigger] e.cache[i]).0, (
        #[trigger] e.cache[j]).0)
    &&& forall|i: int| 0 <= i < e.cache.len() ==> target_wf((#[trigger] e.cache[i]).0)
    &&& e.log.len() == e.cache.len()
    &&& forall|i: int| 0 <= i < e.log.len() ==> (#[trigger] e.log[i]) == e.cache[i].0
    &&& forall|i: int|
        0 <= i < e.cache.len() && (#[trigger] e.cache[i]).1 is Ok ==> e.cache[i].1
            == analysis_spec(e.rules, e.platforms, e.cache[i].0)
    &&& forall|i: int|
        0 <= i < e.cache.len() && analysis_spec(e.rules, e.platforms, (
        #[trigger] e.cache[i]).0) is Err ==> e.cache[i].1 == analysis_spec(
            e.rules,
            e.platforms,
            e.cache[i].0,
        )
}

/// At most one analysis ever runs per structural identity.
pub proof fn lemma_analysis_at_most_once(e: EngineV, t: TargetV)
    requires
        engine_wf(e),
    ensures
        count_equiv(e.log, t) <= 1,
{
    lemma_count_pairwise(e.log, t);
}

proof fn lemma_count_pairwise(log: Seq<TargetV>, t: TargetV)
    requires
        forall|i: int, j: int|
            0 <= i < j < log.len() ==> !target_equiv(#[trigger] log[i], #[trigger] log[j]),
    ensures
        count_equiv(log, t) <= 1,
        count_equiv(log, t) >= 0,
        count_equiv(log, t) == 1 ==> exists|i: int| 0 <= i < log.len() && target_equiv(
            #[trigger] log[i],
            t,
        ),
    decreases log.len(),
{
    if log.len() > 0 {
        let rest = log.drop_first();
        assert(forall|k: int| 0 <= k < rest.len() ==> (#[trigger] rest[k]) == log[k + 1]);
        lemma_count_pairwise(rest, t);
        if target_equiv(log[0], t) {
            // Nothing after the head can also match: it would be
            // structurally equal to the head through `t`.
            if count_equiv(rest, t) == 1 {
                let i = choose|i: int| 0 <= i < rest.len() && target_equiv(#[trigger] rest[i], t);
                assert(!target_equiv(log[0], log[i + 1]));
                assert(false);
            }
        } else {
            if count_equiv(rest, t) == 1 {
                let i = choose|i: int| 0 <= i < rest.len() && target_equiv(#[trigger] rest[i], t);
                assert(target_equiv(log[i + 1], t));
            }
        }
    }
}


/// The index of the first rule definition of the given rule-type name.
#[verifier::loop_isolation(false)]
fn find_rule(rules: &Vec<RuleDef>, name: &str) -> (r: Option<usize>)
    ensures
        match r {
            Some(i) => i < rules@.len() && rules_find(
                rules@.map_values(|d: RuleDef| d@),
                name@,
            ) == Option::Some(rules@[i as int]@),
            None => rules_find(rules@.map_values(|d: RuleDef| d@), name@) is None,
        },
{
    let ghost rv = rules@.map_values(|d: RuleDef| d@);
    let n = rules.len();
    proof {
        assert(rv.subrange(0, n as int) =~= rv);
    }
    let mut i: usize = 0;
    while i < n
        invariant
            0 <= i <= n,
            rules_find(rv, name@) == rules_find(rv.subrange(i as int, n as int), name@),
        decreases n - i,
    {
        proof {
            assert(rv[i as int] == rules@[i as int]@);
            assert(rv.subrange(i as int, n as int)[0] == rv[i as int]);
            assert(rv.subrange(i as int, n as int).drop_first() =~= rv.subrange(
                i as int + 1,
                n as int,
            ));
        }
        if crate::text::str_eq(rules[i].rule.name.as_str(), name) {
            return Some(i);
        }
        i += 1;
    }
    proof {
        assert(rv.subrange(n as int, n as int) =~= Seq::<RuleDefV>::empty());
    }
    None
}

/// The index of the first execution platform whose configuration
/// matches.
#[verifier::loop_isolation(false)]
fn find_platform(platforms: &Vec<ExecutionPlatform>, cfg: &crate::config::Configuration) -> (r:
    Option<usize>)
    ensures
        match r {
            Some(i) => i < platforms@.len() && platform_find(
                platforms@.map_values(|p: ExecutionPlatform| p@),
                cfg@,
            ) == Option::Some(platforms@[i as int]@),
            None => platform_find(platforms@.map_values(|p: ExecutionPlatform| p@), cfg@) is None,
        },
{
    let ghost pfv = platforms@.map_values(|p: ExecutionPlatform| p@);
    let n = platforms.len();
    proof {
        assert(pfv.subrange(0, n as int) =~= pfv);
    }
    let mut i: usize = 0;
    while i < n
        invariant
            0 <= i <= n,
            platform_find(pfv, cfg@) == platform_find(pfv.subrange(i as int, n as int), cfg@),
        decreases n - i,
    {
        proof {
            assert(pfv[i as int] == platforms@[i as int]@);
            assert(pfv.subrange(i as int, n as int)[0] == pfv[i as int]);
            assert(pfv.subrange(i as int, n as int).drop_first() =~= pfv.subrange(
                i as int + 1,
                n as int,
            ));
        }
        if platforms[i].cfg.same(cfg) {
            return Some(i);
        }
        i += 1;
    }
    proof {
        assert(pfv.subrange(n as int, n as int) =~= Seq::<PlatformV>::empty());
    }
    None
}

impl Engine {
    /// An engine over the given rule table and platform set, with an
    /// empty cache and an empty log.
    pub fn new(rules: Vec<RuleDef>, platforms: Vec<ExecutionPlatform>) -> (r: Self)
        requires
            rules_wf(rules@.map_values(|d: RuleDef| d@)),
        ensures
            r@.rules == rules@.map_values(|d: RuleDef| d@),
            r@.platforms == platforms@.map_values(|p: ExecutionPlatform| p@),
            r@.cache.len() == 0,
            r@.log.len() == 0,
            engine_wf(r@),
    {
        let r = Engine { rules, platforms, cache: Vec::new(), log: Vec::new() };
        proof {
            assert(r@.cache =~= Seq::<(TargetV, Result<AnalysisV, ErrV>)>::empty());
            assert(r@.log =~= Seq::<TargetV>::empty());
        }
        r
    }

    /// How many times an analysis has actually run for the given
    /// structural identity.
    #[verifier::loop_isolation(false)]
    pub fn times_computed(&self, key: &AnonTargetKey) -> (r: usize)
        requires
            engine_wf(self@),
            target_wf(key@),
        ensures
            r == count_equiv(self@.log, key@),
    {
        let ghost lv = self@.log;
        let n = self.log.len();
        let mut c: usize = 0;
        let mut i: usize = 0;
        proof {
            assert(lv.subrange(0, n as int) =~= lv);
        }
        while i < n
            invariant
                0 <= i <= n,
                c <= i,
                c + count_equiv(lv.subrange(i as int, n as int), key@) == count_equiv(lv, key@),
            decreases n - i,
        {
            proof {
                assert(lv[i as int] == self.log@[i as int]@);
                assert(target_wf(lv[i as int])) by {
                    assert(self@.log[i as int] == self@.cache[i as int].0);
                    assert(target_wf(self@.cache[i as int].0));
                }
                assert(lv.subrange(i as int, n as int)[0] == lv[i as int]);
                assert(lv.subrange(i as int, n as int).drop_first() =~= lv.subrange(
                    i as int + 1,
                    n as int,
                ));
                lemma_count_nonneg(lv.subrange(i as int + 1, n as int), key@);
            }
            if self.log[i].same_target(key) {
                c += 1;
            }
            i += 1;
        }
        proof {
            assert(lv.subrange(n as int, n as int) =~= Seq::<TargetV>::empty());
        }
        c
    }
}

proof fn lemma_count_nonneg(log: Seq<TargetV>, t: TargetV)
    ensures
        count_equiv(log, t) >= 0,
        count_equiv(log, t) <= log.len(),
    decreases log.len(),
{
    if log.len() > 0 {
        lemma_count_nonneg(log.drop_first(), t);
    }
}

/// The depth to which a rule implementation may register anonymous
/// targets whose own implementations register further ones.
pub const NESTED_RESOLUTION_BUDGET: u64 = 32;

impl AnonTargetKey {
    /// The cold analysis routine, invoked at most once per distinct
    /// identity and build: resolve the rule implementation for the
    /// target's rule type, resolve every configured attribute in an
    /// isolated scope with no dependency-analysis or query results
    /// available, match an execution platform against the target's
    /// stored configuration, invoke the implementation, capture its
    /// declared provider list, recursively resolve the anonymous
    /// targets it registered, and package the providers with the
    /// recorded deferred actions.
    #[verifier::loop_isolation(false)]
    pub fn run_analysis_impl(&self, engine: &mut Engine, fuel: u64) -> (r: Result<
        AnalysisResult,
        AnonTargetsError,
    >)
        requires
            engine_wf(old(engine)@),
            target_wf(self@),
        ensures
            engine_wf(final(engine)@),
            final(engine)@.rules == old(engine)@.rules,
            final(engine)@.platforms == old(engine)@.platforms,
            cache_preserved(old(engine)@.cache, final(engine)@.cache),
            log_extends(old(engine)@.log, final(engine)@.log),
            r is Ok ==> outcome_view(&r) == analysis_spec(
                old(engine)@.rules,
                old(engine)@.platforms,
                self@,
            ),
            analysis_spec(old(engine)@.rules, old(engine)@.platforms, self@) is Err
                ==> outcome_view(&r) == analysis_spec(
                old(engine)@.rules,
                old(engine)@.platforms,
                self@,
            ),
            nested_count(old(engine)@.rules, self@) == 0 ==> outcome_view(&r) == analysis_spec(
                old(engine)@.rules,
                old(engine)@.platforms,
                self@,
            ) && final(engine)@ == old(engine)@,
        decreases fuel, 0int,
    {
        let ghost rv = engine@.rules;
        let ghost pfv = engine@.platforms;
        // Step 1: the rule implementation for the target's rule type.
        let def_at = find_rule(&engine.rules, self.0.rule_type.as_str());
        let di = match def_at {
            Some(di) => di,
            None => {
                return Err(AnonTargetsError::Wrapped(self.0.rule_type.clone()));
            },
        };
        let ghost def = rules_find(rv, self@.rule)->Some_0;
        proof {
            assert(def == engine.rules@[di as int]@);
        }
        // Step 2: an isolated scope for this single analysis — the
        // resolved-attribute record lives only here.
        // Step 3: resolve every configured attribute; with no
        // dependency-analysis results and no query results available,
        // each resolves to its configured value.
        let na = self.0.attrs.len();
        let mut resolved: Vec<(String, ConfiguredAttr)> = Vec::new();
        let mut ai: usize = 0;
        while ai < na
            invariant
                0 <= ai <= na,
                resolved@.len() == ai,
                forall|k: int|
                    0 <= k < ai ==> (#[trigger] resolved@[k]).0@ == self.0.attrs@[k].0@
                        && resolved@[k].1@ == self.0.attrs@[k].1@,
            decreases na - ai,
        {
            resolved.push((self.0.attrs[ai].0.clone(), self.0.attrs[ai].1.duplicate()));
            ai += 1;
        }
        proof {
            assert(pairs_view(resolved@) =~= pairs_view(self.0.attrs@));
        }
        // Step 4: match an execution platform against the target's
        // stored configuration, which serves both roles here.
        let plat_at = find_platform(&engine.platforms, &self.0.cfg);
        let pi = match plat_at {
            Some(pi) => pi,
            None => {
                return Err(
                    AnonTargetsError::Wrapped(String::from_str("no matching execution platform")),
                );
            },
        };
        // Steps 5-7: invoke the rule implementation on the resolved
        // attributes and capture its declared provider list.
        let built: AnalysisResult = match &engine.rules[di].body.outcome {
            RuleOutcome::Fail(m) => {
                return Err(AnonTargetsError::Wrapped(m.clone()));
            },
            RuleOutcome::Providers(ps) => {
                let ghost psv = ps@.map_values(|p: (String, ProviderTemplate)| (p.0@, p.1@));
                proof {
                    assert(def.body.outcome == OutcomeV::Providers(psv));
                    assert(psv.take(0) =~= Seq::<(Seq<char>, TemplateV)>::empty());
                    assert(Seq::<Provider>::empty().map_values(|p: Provider| p@) =~= Seq::<
                        ProviderV,
                    >::empty());
                    crate::key::lemma_wf_unique_pairs(self@.order, pairs_view(self.0.attrs@));
                    lemma_pairs_map_props(pairs_view(self.0.attrs@));
                }
                let npr = ps.len();
                let mut providers: Vec<Provider> = Vec::new();
                let mut qi: usize = 0;
                while qi < npr
                    invariant
                        0 <= qi <= npr,
                        pairs_view(resolved@) == pairs_view(self.0.attrs@),
                        render_providers(self@, psv.take(qi as int)) == Result::<
                            Seq<ProviderV>,
                            ErrV,
                        >::Ok(providers@.map_values(|p: Provider| p@)),
                    decreases npr - qi,
                {
                    let ghost step = psv.take(qi as int + 1);
                    proof {
                        assert(step.drop_last() =~= psv.take(qi as int));
                        assert(step.last() == psv[qi as int]);
                        assert(psv[qi as int] == (ps@[qi as int].0@, ps@[qi as int].1@));
                    }
                    let value = match &ps[qi].1 {
                        ProviderTemplate::Lit(s) => s.clone(),
                        ProviderTemplate::FromAttr(k) => {
                            let found = crate::key::find_attr(&resolved, k.as_str());
                            match found {
                                None => {
                                    proof {
                                        assert(!self@.attrs.dom().contains(k@)) by {
                                            assert(forall|w: int|
                                                0 <= w < pairs_view(self.0.attrs@).len()
                                                    ==> (#[trigger] pairs_view(self.0.attrs@)[w]).0
                                                    == resolved@[w].0@);
                                        }
                                        lemma_render_prefix_err(self@, psv, qi as int + 1);
                                    }
                                    return Err(AnonTargetsError::UnknownAttribute(k.clone()));
                                },
                                Some(j) => {
                                    proof {
                                        let pv = pairs_view(self.0.attrs@);
                                        assert(pv[j as int] == (
                                            self.0.attrs@[j as int].0@,
                                            self.0.attrs@[j as int].1@,
                                        ));
                                        assert(pv[j as int].0 == k@);
                                        assert(self@.attrs.dom().contains(k@)) by {
                                            assert((#[trigger] pv[j as int]).0 == k@);
                                        }
                                        assert(self@.attrs[k@] == pv[j as int].1) by {
                                            assert(pairs_map(pv)[(#[trigger] pv[j as int]).0]
                                                == pv[j as int].1);
                                        }
                                    }
                                    resolved[j].1.display()
                                },
                            }
                        },
                    };
                    let ghost pv_old = providers@.map_values(|p: Provider| p@);
                    providers.push(Provider { name: ps[qi].0.clone(), value });
                    proof {
                        assert(providers@.map_values(|p: Provider| p@) =~= pv_old.push(
                            ProviderV { name: ps@[qi as int].0@, value: value@ },
                        ));
                    }
                    qi += 1;
                }
                proof {
                    assert(psv.take(npr as int) =~= psv);
                }
                // Collect the recorded actions for the deferred table.
                let nac = engine.rules[di].body.actions.len();
                let mut actions: Vec<String> = Vec::new();
                let mut ci: usize = 0;
                while ci < nac
                    invariant
                        0 <= ci <= nac,
                        actions@.len() == ci,
                        forall|k: int|
                            0 <= k < ci ==> (#[trigger] actions@[k])@ == engine.rules@[di as int]
                                .body.actions@[k]@,
                    decreases nac - ci,
                {
                    actions.push(engine.rules[di].body.actions[ci].clone());
                    ci += 1;
                }
                let res = AnalysisResult { providers, deferred: DeferredTable { actions } };
                proof {
                    assert(res@.actions =~= def.body.actions);
                }
                res
            },
        };
        proof {
            assert(Result::<AnalysisV, ErrV>::Ok(built@) == analysis_spec(rv, pfv, self@));
        }
        // Step 8: recursively resolve the anonymous targets the rule
        // implementation itself registered, before the scope freezes.
        let nn = engine.rules[di].body.nested.len();
        proof {
            assert(nested_count(rv, self@) == nn);
        }
        if nn > 0 && fuel == 0 {
            return Err(
                AnonTargetsError::Wrapped(
                    String::from_str("anonymous target recursion limit reached"),
                ),
            );
        }
        let mut ni: usize = 0;
        while ni < nn
            invariant
                0 <= ni <= nn,
                engine_wf(engine@),
                engine@.rules == rv,
                engine@.platforms == pfv,
                cache_preserved(old(engine)@.cache, engine@.cache),
                log_extends(old(engine)@.log, engine@.log),
                ni == 0 ==> engine@ == old(engine)@,
                nn > 0 ==> fuel >= 1,
            decreases nn - ni,
        {
            proof {
                assert(rv[di as int] == engine.rules@[di as int]@);
                assert(rv[di as int].body.nested[ni as int] == engine.rules@[di as int].body
                    .nested@[ni as int]@);
            }
            let found = find_rule(&engine.rules, engine.rules[di].body.nested[ni].rule.as_str());
            let ri2 = match found {
                Some(ri2) => ri2,
                None => {
                    return Err(
                        AnonTargetsError::Wrapped(engine.rules[di].body.nested[ni].rule.clone()),
                    );
                },
            };
            let res2 = ExecutionPlatformResolution::new(Some(engine.platforms[pi].duplicate()));
            let nested_key = match AnonTargetKey::new(
                &res2,
                &engine.rules[ri2].rule,
                &engine.rules[di].body.nested[ni].attrs,
            ) {
                Ok(k) => k,
                Err(e) => {
                    return Err(e);
                },
            };
            let ghost mid = engine@;
            let nested_outcome = nested_key.resolve_with_budget(engine, fuel - 1);
            proof {
                assert forall|t: TargetV|
                    #[trigger] cache_find(old(engine)@.cache, t) is Some implies cache_find(
                    engine@.cache,
                    t,
                ) == cache_find(old(engine)@.cache, t) by {
                    assert(cache_find(mid.cache, t) == cache_find(old(engine)@.cache, t));
                    assert(cache_find(mid.cache, t) is Some);
                }
                assert(log_extends(old(engine)@.log, engine@.log)) by {
                    assert(forall|i: int|
                        0 <= i < old(engine)@.log.len() ==> #[trigger] old(engine)@.log[i]
                            == mid.log[i]);
                    assert(forall|i: int|
                        0 <= i < mid.log.len() ==> #[trigger] mid.log[i] == engine@.log[i]);
                }
            }
            match nested_outcome {
                Ok(_) => {},
                Err(e) => {
                    return Err(e);
                },
            }
            ni += 1;
        }
        // Steps 9-10: freeze the scope and hand the packaged result out.
        Ok(built)
    }

    /// The engine-level "are these two computed values equal" check
    /// for this key type always reports a change: analysis results have
    /// no meaningful equality for downstream invalidation, so this
    /// deliberately disables any short-circuit that would otherwise
    /// compare analysis outputs.
    pub fn equality(
        a: &Result<AnalysisResult, AnonTargetsError>,
        b: &Result<AnalysisResult, AnonTargetsError>,
    ) -> (r: bool)
        ensures
            !r,
    {
        let _ = a;
        let _ = b;
        false
    }

    /// The analysis routine as one unit of work; it runs to completion
    /// within one logical unit of work, and its evaluation scope is
    /// never observed from a second concurrent one.
    pub fn run_analysis(&self, engine: &mut Engine, fuel: u64) -> (r: Result<
        AnalysisResult,
        AnonTargetsError,
    >)
        requires
            engine_wf(old(engine)@),
            target_wf(self@),
        ensures
            engine_wf(final(engine)@),
            final(engine)@.rules == old(engine)@.rules,
            final(engine)@.platforms == old(engine)@.platforms,
            cache_preserved(old(engine)@.cache, final(engine)@.cache),
            log_extends(old(engine)@.log, final(engine)@.log),
            r is Ok ==> outcome_view(&r) == analysis_spec(
                old(engine)@.rules,
                old(engine)@.platforms,
                self@,
            ),
            analysis_spec(old(engine)@.rules, old(engine)@.platforms, self@) is Err
                ==> outcome_view(&r) == analysis_spec(
                old(engine)@.rules,
                old(engine)@.platforms,
                self@,
            ),
            nested_count(old(engine)@.rules, self@) == 0 ==> outcome_view(&r) == analysis_spec(
                old(engine)@.rules,
                old(engine)@.platforms,
                self@,
            ) && final(engine)@ == old(engine)@,
        decreases fuel, 1int,
    {
        self.run_analysis_impl(engine, fuel)
    }

    /// Memoized resolution under an explicit recursion budget: a cached
    /// identity — equal by structure, not by handle — is answered from
    /// the cache without running anything; otherwise the analysis runs
    /// once, cold, and its outcome (failure included) is recorded under
    /// this identity.
    #[verifier::loop_isolation(false)]
    pub fn resolve_with_budget(&self, engine: &mut Engine, budget: u64) -> (r: Result<
        AnalysisResult,
        AnonTargetsError,
    >)
        requires
            engine_wf(old(engine)@),
            target_wf(self@),
        ensures
            engine_wf(final(engine)@),
            final(engine)@.rules == old(engine)@.rules,
            final(engine)@.platforms == old(engine)@.platforms,
            cache_preserved(old(engine)@.cache, final(engine)@.cache),
            log_extends(old(engine)@.log, final(engine)@.log),
            cache_find(final(engine)@.cache, self@) == Option::Some(outcome_view(&r)),
            r is Ok ==> outcome_view(&r) == analysis_spec(
                old(engine)@.rules,
                old(engine)@.platforms,
                self@,
            ),
            analysis_spec(old(engine)@.rules, old(engine)@.platforms, self@) is Err
                ==> outcome_view(&r) == analysis_spec(
                old(engine)@.rules,
                old(engine)@.platforms,
                self@,
            ),
            cache_find(old(engine)@.cache, self@) matches Option::Some(v) ==> outcome_view(&r)
                == v && final(engine)@ == old(engine)@,
            cache_find(old(engine)@.cache, self@) is None && nested_count(
                old(engine)@.rules,
                self@,
            ) == 0 ==> final(engine)@.cache == old(engine)@.cache.push((self@, outcome_view(&r)))
                && final(engine)@.log == old(engine)@.log.push(self@),
        decreases budget, 2int,
    {
        let ghost cv0 = engine@.cache;
        let n = engine.cache.len();
        let mut i: usize = 0;
        while i < n
            invariant
                0 <= i <= n,
                forall|k: int| 0 <= k < i ==> !target_equiv((#[trigger] cv0[k]).0, self@),
            decreases n - i,
        {
            proof {
                assert(cv0[i as int] == (
                    engine.cache@[i as int].0@,
                    outcome_view(&engine.cache@[i as int].1),
                ));
            }
            if engine.cache[i].0.same_target(self) {
                proof {
                    lemma_cache_find_hit(cv0, self@, i as int);
                    lemma_analysis_spec_equiv(
                        engine@.rules,
                        engine@.platforms,
                        cv0[i as int].0,
                        self@,
                    );
                }
                let r = match &engine.cache[i].1 {
                    Ok(a) => Ok(a.duplicate()),
                    Err(e) => Err(e.duplicate()),
                };
                proof {
                    assert(outcome_view(&r) == cv0[i as int].1);
                }
                return r;
            }
            i += 1;
        }
        proof {
            lemma_cache_find_none(cv0, self@);
        }
        let computed = self.run_analysis(engine, budget);
        // A nested resolution may already have recorded this identity;
        // only a still-unrecorded one is inserted.
        let ghost midv = engine@;
        let n2 = engine.cache.len();
        let mut i2: usize = 0;
        while i2 < n2
            invariant
                0 <= i2 <= n2,
                forall|k: int| 0 <= k < i2 ==> !target_equiv((#[trigger] midv.cache[k]).0, self@),
            decreases n2 - i2,
        {
            proof {
                assert(midv.cache[i2 as int] == (
                    engine.cache@[i2 as int].0@,
                    outcome_view(&engine.cache@[i2 as int].1),
                ));
            }
            if engine.cache[i2].0.same_target(self) {
                proof {
                    lemma_cache_find_hit(midv.cache, self@, i2 as int);
                    lemma_analysis_spec_equiv(
                        engine@.rules,
                        engine@.platforms,
                        midv.cache[i2 as int].0,
                        self@,
                    );
                }
                let r = match &engine.cache[i2].1 {
                    Ok(a) => Ok(a.duplicate()),
                    Err(e) => Err(e.duplicate()),
                };
                proof {
                    assert(outcome_view(&r) == midv.cache[i2 as int].1);
                }
                return r;
            }
            i2 += 1;
        }
        proof {
            lemma_cache_find_none(midv.cache, self@);
        }
        let stored: Result<AnalysisResult, AnonTargetsError> = match &computed {
            Ok(a) => Ok(a.duplicate()),
            Err(e) => Err(e.duplicate()),
        };
        engine.cache.push((self.dupe(), stored));
        engine.log.push(self.dupe());
        proof {
            assert(engine@.cache =~= midv.cache.push((self@, outcome_view(&computed))));
            assert(engine@.log =~= midv.log.push(self@));
            lemma_cache_find_hit(engine@.cache, self@, n2 as int);
            assert forall|t: TargetV|
                #[trigger] cache_find(old(engine)@.cache, t) is Some implies cache_find(
                engine@.cache,
                t,
            ) == cache_find(old(engine)@.cache, t) by {
                assert(cache_find(midv.cache, t) == cache_find(old(engine)@.cache, t));
                lemma_cache_find_push(midv.cache, (self@, outcome_view(&computed)), t);
            }
        }
        computed
    }

    /// Memoized resolution: requests the analysis for this structural
    /// identity from the engine, under the standard recursion budget.
    pub fn resolve(&self, engine: &mut Engine) -> (r: Result<AnalysisResult, AnonTargetsError>)
        requires
            engine_wf(old(engine)@),
            target_wf(self@),
        ensures
            engine_wf(final(engine)@),
            final(engine)@.rules == old(engine)@.rules,
            final(engine)@.platforms == old(engine)@.platforms,
            cache_preserved(old(engine)@.cache, final(engine)@.cache),
            log_extends(old(engine)@.log, final(engine)@.log),
            cache_find(final(engine)@.cache, self@) == Option::Some(outcome_view(&r)),
            r is Ok ==> outcome_view(&r) == analysis_spec(
                old(engine)@.rules,
                old(engine)@.platforms,
                self@,
            ),
            analysis_spec(old(engine)@.rules, old(engine)@.platforms, self@) is Err
                ==> outcome_view(&r) == analysis_spec(
                old(engine)@.rules,
                old(engine)@.platforms,
                self@,
            ),
            cache_find(old(engine)@.cache, self@) matches Option::Some(v) ==> outcome_view(&r)
                == v && final(engine)@ == old(engine)@,
    {
        self.resolve_with_budget(engine, NESTED_RESOLUTION_BUDGET)
    }
}

/// The standalone entry point the computation engine's own key dispatch
/// uses: resolve one anonymous target outside the registry path.
pub fn eval_anon_target(engine: &mut Engine, target: &AnonTargetKey) -> (r: Result<
    AnalysisResult,
    AnonTargetsError,
>)
    requires
        engine_wf(old(engine)@),
        target_wf(target@),
    ensures
        engine_wf(final(engine)@),
        final(engine)@.rules == old(engine)@.rules,
        final(engine)@.platforms == old(engine)@.platforms,
        cache_preserved(old(engine)@.cache, final(engine)@.cache),
        log_extends(old(engine)@.log, final(engine)@.log),
        cache_find(final(engine)@.cache, target@) == Option::Some(outcome_view(&r)),
        r is Ok ==> outcome_view(&r) == analysis_spec(
            old(engine)@.rules,
            old(engine)@.platforms,
            target@,
        ),
        analysis_spec(old(engine)@.rules, old(engine)@.platforms, target@) is Err
            ==> outcome_view(&r) == analysis_spec(
            old(engine)@.rules,
            old(engine)@.platforms,
            target@,
        ),
        cache_find(old(engine)@.cache, target@) matches Option::Some(v) ==> outcome_view(&r) == v
            && final(engine)@ == old(engine)@,
{
    target.resolve(engine)
}

} // verus!
