//! Diagnosing a project: what is true, how serious it is, and what to do about it.

use vstd::prelude::*;

use crate::json::{json_views, json_with, no_fields, Json, JsonView, a_field_that_is_set_reads_back};
use crate::order::{in_order, sort, sorted, sorting_orders_and_keeps, Ranked};
use crate::provider_caps::ProviderCapabilities;
use crate::text::{dec, decimal_usize, join, joined, push_decimal, texts, group_mentions, joining_keeps_every_part, mentions};
use crate::tool_def::{problems_of, Discoverability, DiscoverabilityView, ToolDefinition, ToolDefinitionView};

verus! {

/// How serious a finding is.
#[derive(Debug, Clone, Copy, PartialEq, Eq, PartialOrd, Ord, Structural)]
pub enum Severity {
    /// Worth knowing.
    Info,
    /// Working, but costing more than it should, or fragile.
    Warn,
    /// Broken.
    Error,
}

impl Severity {
    /// How serious, as a number.
    pub open spec fn rank(self) -> int {
        match self {
            Severity::Info => 0,
            Severity::Warn => 1,
            Severity::Error => 2,
        }
    }

    fn level(self) -> (r: u8)
        ensures
            r == self.rank(),
    {
        match self {
            Severity::Info => 0,
            Severity::Warn => 1,
            Severity::Error => 2,
        }
    }
}

/// A severity on the wire.
pub open spec fn severity_name(s: Severity) -> Seq<char> {
    match s {
        Severity::Info => "info"@,
        Severity::Warn => "warn"@,
        Severity::Error => "error"@,
    }
}

/// One thing that was found.
#[derive(Debug, PartialEq, Eq)]
pub struct Finding {
    /// Which check produced it.
    pub check: String,
    /// How serious.
    pub severity: Severity,
    /// What is true.
    pub message: String,
    /// What to do. Present on every finding that asks for action.
    pub fix: Option<String>,
}

impl Clone for Finding {
    fn clone(&self) -> (r: Self)
        ensures
            r == *self,
    {
        Finding {
            check: self.check.clone(),
            severity: self.severity,
            message: self.message.clone(),
            fix: match &self.fix {
                Some(f) => Some(f.clone()),
                None => None,
            },
        }
    }
}

/// One thing that was found.
#[verifier::ext_equal]
pub struct FindingView {
    pub check: Seq<char>,
    pub severity: Severity,
    pub message: Seq<char>,
    pub fix: Option<Seq<char>>,
}

impl View for Finding {
    type V = FindingView;

    open spec fn view(&self) -> FindingView {
        FindingView {
            check: self.check@,
            severity: self.severity,
            message: self.message@,
            fix: crate::error::opt_text(self.fix),
        }
    }
}

impl DeepView for Finding {
    type V = FindingView;

    open spec fn deep_view(&self) -> FindingView {
        self@
    }
}

/// An informational finding.
pub open spec fn info_finding(check: Seq<char>, message: Seq<char>) -> FindingView {
    FindingView { check, severity: Severity::Info, message, fix: None }
}

/// A warning.
pub open spec fn warn_finding(check: Seq<char>, message: Seq<char>, fix: Seq<char>) -> FindingView {
    FindingView { check, severity: Severity::Warn, message, fix: Some(fix) }
}

/// An error.
pub open spec fn error_finding(
    check: Seq<char>,
    message: Seq<char>,
    fix: Seq<char>,
) -> FindingView {
    FindingView { check, severity: Severity::Error, message, fix: Some(fix) }
}

/// Whether a finding says what to do, where there is something to do.
pub open spec fn actionable(f: FindingView) -> bool {
    f.severity == Severity::Info || f.fix is Some
}

impl Finding {
    /// An informational finding.
    pub fn info(check: &str, message: &str) -> (r: Self)
        ensures
            r@ == info_finding(check@, message@),
            actionable(r@),
    {
        Finding {
            check: check.to_owned(),
            severity: Severity::Info,
            message: message.to_owned(),
            fix: None,
        }
    }

    /// A warning, with its fix.
    pub fn warn(check: &str, message: &str, fix: &str) -> (r: Self)
        ensures
            r@ == warn_finding(check@, message@, fix@),
            actionable(r@),
    {
        Finding {
            check: check.to_owned(),
            severity: Severity::Warn,
            message: message.to_owned(),
            fix: Some(fix.to_owned()),
        }
    }

    /// An error, with its fix.
    pub fn error(check: &str, message: &str, fix: &str) -> (r: Self)
        ensures
            r@ == error_finding(check@, message@, fix@),
            actionable(r@),
    {
        Finding {
            check: check.to_owned(),
            severity: Severity::Error,
            message: message.to_owned(),
            fix: Some(fix.to_owned()),
        }
    }
}

impl Ranked for Finding {
    open spec fn before(&self, other: &Self) -> bool {
        self.severity.rank() > other.severity.rank()
    }

    proof fn order_laws(a: Self, b: Self, c: Self) {
    }

    fn is_before(&self, other: &Self) -> (r: bool) {
        self.severity.level() > other.severity.level()
    }
}

/// Everything that was found.
#[derive(Debug, PartialEq, Eq)]
pub struct Report {
    /// The findings.
    pub findings: Vec<Finding>,
}

impl Default for Report {
    fn default() -> (r: Self)
        ensures
            r.findings@ == Seq::<Finding>::empty(),
    {
        Report { findings: Vec::new() }
    }
}

/// Whether nothing is broken.
pub open spec fn healthy(findings: Seq<Finding>) -> bool {
    forall|i: int|
        0 <= i < findings.len() ==> (#[trigger] findings[i]).severity != Severity::Error
}

/// A finding on the wire. Without a fix it has no field for one.
pub open spec fn finding_json(f: FindingView) -> JsonView {
    let head = json_with(
        json_with(
            json_with(no_fields(), "check"@, JsonView::Text(f.check)),
            "severity"@,
            JsonView::Text(severity_name(f.severity)),
        ),
        "message"@,
        JsonView::Text(f.message),
    );
    match f.fix {
        Some(x) => json_with(head, "fix"@, JsonView::Text(x)),
        None => head,
    }
}

/// A report on the wire.
pub open spec fn report_json(findings: Seq<Finding>) -> JsonView {
    json_with(
        json_with(no_fields(), "healthy"@, JsonView::Bool(healthy(findings))),
        "findings"@,
        JsonView::Array(Seq::new(findings.len(), |i: int| finding_json(findings[i]@))),
    )
}

impl Report {
    /// Whether nothing is broken.
    #[must_use]
    pub fn is_healthy(&self) -> (r: bool)
        ensures
            r == healthy(self.findings@),
    {
        let mut i: usize = 0;
        while i < self.findings.len()
            invariant
                i <= self.findings@.len(),
                forall|j: int|
                    0 <= j < i ==> (#[trigger] self.findings@[j]).severity != Severity::Error,
            decreases self.findings@.len() - i,
        {
            if self.findings[i].severity == Severity::Error {
                return false;
            }
            i = i + 1;
        }
        true
    }

    /// The findings as a JSON document. Its shape is an interface: a field rename breaks readers.
    #[must_use]
    pub fn to_json(&self) -> (r: Json)
        ensures
            r@ == report_json(self.findings@),
    {
        let mut items: Vec<Json> = Vec::new();
        let mut i: usize = 0;
        while i < self.findings.len()
            invariant
                i <= self.findings@.len(),
                items@.len() == i,
                forall|j: int|
                    0 <= j < i ==> (#[trigger] items@[j])@ == finding_json(self.findings@[j]@),
            decreases self.findings@.len() - i,
        {
            let f = &self.findings[i];
            let head = Json::empty().with("check", Json::text(f.check.as_str())).with(
                "severity",
                Json::text(
                    match f.severity {
                        Severity::Info => "info",
                        Severity::Warn => "warn",
                        Severity::Error => "error",
                    },
                ),
            ).with("message", Json::text(f.message.as_str()));
            items.push(
                match &f.fix {
                    Some(x) => head.with("fix", Json::text(x.as_str())),
                    None => head,
                },
            );
            i = i + 1;
        }
        assert(json_views(items@) == Seq::new(
            self.findings@.len(),
            |i: int| finding_json(self.findings@[i]@),
        ));
        Json::empty().with("healthy", Json::flag(self.is_healthy())).with(
            "findings",
            Json::array(items),
        )
    }

    /// Sort most serious first, so a truncated read still shows what matters. Findings as serious as
    /// each other keep their order.
    pub fn sort(&mut self)
        ensures
            final(self).findings@ == sorted(old(self).findings@),
    {
        let mut findings: Vec<Finding> = Vec::new();
        std::mem::swap(&mut findings, &mut self.findings);
        self.findings = sort(findings);
    }

    /// Add findings at the end.
    pub fn extend(&mut self, more: Vec<Finding>)
        ensures
            final(self).findings@ == old(self).findings@ + more@,
    {
        let ghost start = self.findings@;
        let ghost all = more@;
        assert(start + all.take(0) == start);
        for finding in it: more
            invariant
                it.seq() == all,
                it.index() <= all.len(),
                self.findings@ == start + all.take(it.index() as int),
        {
            proof {
                let i = it.index() as int;
                assert(start + all.take(i + 1) == (start + all.take(i)).push(finding));
            }
            self.findings.push(finding);
        }
        assert(all.take(all.len() as int) == all);
    }
}

/// A sorted report keeps every finding and shows the worst first.
pub proof fn the_worst_comes_first(findings: Seq<Finding>)
    ensures
        in_order(sorted(findings)),
        sorted(findings).to_multiset() == findings.to_multiset(),
        findings.len() > 0 && !healthy(findings) ==> sorted(findings)[0].severity
            == Severity::Error,
{
    sorting_orders_and_keeps(findings);
    let s = sorted(findings);
    if findings.len() > 0 && !healthy(findings) {
        let i = choose|i: int|
            0 <= i < findings.len() && (#[trigger] findings[i]).severity == Severity::Error;
        findings.to_multiset_ensures();
        s.to_multiset_ensures();
        assert(findings.contains(findings[i]));
        assert(findings.to_multiset().count(findings[i]) > 0);
        assert(s.contains(findings[i]));
        let k = choose|k: int| 0 <= k < s.len() && s[k] == findings[i];
        if k > 0 {
            assert(!s[k].before(&s[0]));
        }
    }
}

/// A problem in words.
pub open spec fn problem_text(p: DiscoverabilityView) -> Seq<char> {
    match p {
        DiscoverabilityView::NoDescription => "it has no description"@,
        DiscoverabilityView::ThinDescription { words } => "its description is only "@ + dec(words)
            + " words"@,
        DiscoverabilityView::UndocumentedParameters { names } => {
            "these parameters are undocumented: "@ + joined(names, ", "@)
        },
        DiscoverabilityView::NoNamespace => {
            "it is deferred but has no `service_` prefix, so one search cannot match its group"@
        },
    }
}

fn describe(problem: &Discoverability) -> (r: String)
    ensures
        r@ == problem_text(problem.deep_view()),
{
    match problem {
        Discoverability::NoDescription => "it has no description".to_owned(),
        Discoverability::ThinDescription { words } => {
            let mut out = "its description is only ".to_owned();
            out.push_str(decimal_usize(*words).as_str());
            out.push_str(" words");
            out
        },
        Discoverability::UndocumentedParameters { names } => {
            let mut out = "these parameters are undocumented: ".to_owned();
            out.push_str(join(names, ", ").as_str());
            out
        },
        Discoverability::NoNamespace => {
            "it is deferred but has no `service_` prefix, so one search cannot match its group".to_owned()
        },
    }
}

/// What to say about a tool that is hard to find.
pub open spec fn hard_to_find(tool: ToolDefinitionView) -> FindingView {
    let problems = problems_of(tool);
    warn_finding(
        "tools.discoverability"@,
        "`"@ + tool.name + "` would be hard to find: "@ + joined(
            Seq::new(problems.len(), |i: int| problem_text(problems[i])),
            "; "@,
        ),
        "Tool search matches names, descriptions, argument names and argument descriptions. Document every parameter and give the tool a full sentence."@,
    )
}

/// What to say about a catalog: one finding for each tool that is hard to find, in catalog order.
pub open spec fn catalog_findings(tools: Seq<ToolDefinitionView>) -> Seq<FindingView>
    decreases tools.len(),
{
    if tools.len() == 0 {
        Seq::empty()
    } else if problems_of(tools.last()).len() == 0 {
        catalog_findings(tools.drop_last())
    } else {
        catalog_findings(tools.drop_last()).push(hard_to_find(tools.last()))
    }
}

/// Check that the catalog is findable. A tool nobody can retrieve is a defect once a catalog
/// outgrows the context window.
#[must_use]
pub fn check_discoverability(tools: &[ToolDefinition]) -> (r: Vec<Finding>)
    ensures
        r.deep_view() == catalog_findings(tools.deep_view()),
{
    let ghost all = tools.deep_view();
    let mut out: Vec<Finding> = Vec::new();
    let mut i: usize = 0;
    assert(out.deep_view() == catalog_findings(all.take(0)));
    while i < tools.len()
        invariant
            i <= tools@.len(),
            all == tools.deep_view(),
            out.deep_view() == catalog_findings(all.take(i as int)),
        decreases tools@.len() - i,
    {
        assert(all.take(i + 1).drop_last() == all.take(i as int));
        assert(all.take(i + 1).last() == tools@[i as int]@);
        let report = tools[i].discoverability();
        if !report.is_clean() {
            let ghost found = report@;
            let mut problems: Vec<String> = Vec::new();
            let mut k: usize = 0;
            while k < report.problems.len()
                invariant
                    k <= report.problems@.len(),
                    problems@.len() == k,
                    forall|j: int|
                        0 <= j < k ==> (#[trigger] problems@[j])@ == problem_text(
                            report.problems@[j].deep_view(),
                        ),
                decreases report.problems@.len() - k,
            {
                problems.push(describe(&report.problems[k]));
                k = k + 1;
            }
            assert(texts(problems@) == Seq::new(found.len(), |i: int| problem_text(found[i])));
            let mut message = "`".to_owned();
            message.push_str(tools[i].name.as_str());
            message.push_str("` would be hard to find: ");
            message.push_str(join(&problems, "; ").as_str());
            let finding = Finding::warn(
                "tools.discoverability",
                message.as_str(),
                "Tool search matches names, descriptions, argument names and argument descriptions. Document every parameter and give the tool a full sentence.",
            );
            let ghost before = out.deep_view();
            assert(finding@ == hard_to_find(all[i as int]));
            out.push(finding);
            assert(out.deep_view() == before.push(hard_to_find(all[i as int])));
        }
        i = i + 1;
    }
    assert(all.take(all.len() as int) == all);
    out
}

/// What to say about caching.
pub open spec fn cache_finding(prefix: u32, minimum: Option<u32>) -> FindingView {
    match minimum {
        None => info_finding(
            "context.cache"@,
            "this model does not cache prompts, so every turn pays full price"@,
        ),
        Some(m) => if prefix < m {
            warn_finding(
                "context.cache"@,
                "the stable prefix is "@ + dec(prefix as nat) + " tokens; this model caches from "@
                    + dec(m as nat)
                    + ". The provider accepts it and silently does not cache, so the only symptom is cost."@,
                "Move more of the prompt into the stable prefix, or accept that caching is off for this model."@,
            )
        } else {
            info_finding(
                "context.cache"@,
                "the stable prefix is "@ + dec(prefix as nat) + " tokens, above this model's "@
                    + dec(m as nat),
            )
        },
    }
}

fn alone(finding: Finding) -> (r: Vec<Finding>)
    ensures
        r.deep_view() == seq![finding@],
{
    let r: Vec<Finding> = vec![finding];
    assert(r.deep_view() == seq![finding@]);
    r
}

/// Check that the prompt will actually be cached. A prefix below the model's minimum is accepted
/// and silently not cached, and the only symptom is the bill.
#[must_use]
pub fn check_cacheability(prefix_tokens: u32, caps: &ProviderCapabilities) -> (r: Vec<Finding>)
    ensures
        r.deep_view() == seq![cache_finding(prefix_tokens, caps.cache.min_prefix())],
{
    match caps.cache.min_prefix_tokens() {
        None => alone(
            Finding::info(
                "context.cache",
                "this model does not cache prompts, so every turn pays full price",
            ),
        ),
        Some(minimum) => {
            let mut message = "the stable prefix is ".to_owned();
            push_decimal(&mut message, prefix_tokens as u64);
            if prefix_tokens < minimum {
                message.push_str(" tokens; this model caches from ");
                push_decimal(&mut message, minimum as u64);
                message.push_str(
                    ". The provider accepts it and silently does not cache, so the only symptom is cost.",
                );
                alone(
                    Finding::warn(
                        "context.cache",
                        message.as_str(),
                        "Move more of the prompt into the stable prefix, or accept that caching is off for this model.",
                    ),
                )
            } else {
                message.push_str(" tokens, above this model's ");
                push_decimal(&mut message, minimum as u64);
                alone(Finding::info("context.cache", message.as_str()))
            }
        },
    }
}

/// What to say about a dialect. Accepting breakpoints and emitting none is a bug in the adapter;
/// taking none is a fact about the provider.
pub open spec fn mark_finding(
    provider: Seq<char>,
    budget: u8,
    realised: usize,
    automatic: bool,
) -> FindingView {
    let check = "context.marks"@;
    if budget > 0 && realised == 0 {
        error_finding(
            check,
            provider + " accepts "@ + dec(budget as nat)
                + " cache breakpoint(s) and realises none of them; every plan for it is discarded between the planner and the wire"@,
            "This is a bug in the adapter, not in your prompt. Until it is fixed, treat this provider as uncached."@,
        )
    } else if budget == 0 && automatic {
        info_finding(
            check,
            provider
                + " places no breakpoints and caches the prefix itself; the planner's churn and minimum-prefix warnings apply, its breakpoints do not"@,
        )
    } else if budget == 0 {
        warn_finding(
            check,
            provider
                + " takes no breakpoints and does not cache: every turn pays full price"@,
            "Use a caching provider, or accept the cost."@,
        )
    } else {
        info_finding(
            check,
            provider + " allows "@ + dec(budget as nat) + " breakpoint(s) and realises "@ + dec(
                realised as nat,
            ) + " on a real request"@,
        )
    }
}

fn check_marks(provider: &str, budget: u8, realised: usize, automatic: bool) -> (r: Finding)
    ensures
        r@ == mark_finding(provider@, budget, realised, automatic),
{
    let check = "context.marks";
    let mut message = provider.to_owned();
    if budget > 0 && realised == 0 {
        message.push_str(" accepts ");
        push_decimal(&mut message, budget as u64);
        message.push_str(
            " cache breakpoint(s) and realises none of them; every plan for it is discarded between the planner and the wire",
        );
        Finding::error(
            check,
            message.as_str(),
            "This is a bug in the adapter, not in your prompt. Until it is fixed, treat this provider as uncached.",
        )
    } else if budget == 0 && automatic {
        message.push_str(
            " places no breakpoints and caches the prefix itself; the planner's churn and minimum-prefix warnings apply, its breakpoints do not",
        );
        Finding::info(check, message.as_str())
    } else if budget == 0 {
        message.push_str(" takes no breakpoints and does not cache: every turn pays full price");
        Finding::warn(check, message.as_str(), "Use a caching provider, or accept the cost.")
    } else {
        message.push_str(" allows ");
        push_decimal(&mut message, budget as u64);
        message.push_str(" breakpoint(s) and realises ");
        message.push_str(decimal_usize(realised).as_str());
        message.push_str(" on a real request");
        Finding::info(check, message.as_str())
    }
}

/// Report what each dialect does with a cache plan, in order: a provider, how many breakpoints it
/// accepts, how many came out in a real request, and whether it caches on its own.
#[must_use]
pub fn check_cache_marks(support: &[(&str, u8, usize, bool)]) -> (r: Vec<Finding>)
    ensures
        r.deep_view() == Seq::new(support@.len(), |i: int| mark_finding(support@[i].0@, support@[i].1, support@[i].2, support@[i].3)),
{
    let mut out: Vec<Finding> = Vec::new();
    let mut i: usize = 0;
    while i < support.len()
        invariant
            i <= support@.len(),
            out@.len() == i,
            forall|j: int| 0 <= j < i ==> (#[trigger] out@[j])@ == mark_finding(support@[j].0@, support@[j].1, support@[j].2, support@[j].3),
        decreases support@.len() - i,
    {
        let (provider, budget, realised, automatic) = support[i];
        out.push(check_marks(provider, budget, realised, automatic));
        i = i + 1;
    }
    assert(out.deep_view() == Seq::new(support@.len(), |i: int| mark_finding(support@[i].0@, support@[i].1, support@[i].2, support@[i].3)));
    out
}

/// What to say about confinement.
pub open spec fn sandbox_finding(available: bool, detail: Seq<char>) -> FindingView {
    if available {
        info_finding("security.sandbox"@, detail)
    } else {
        error_finding(
            "security.sandbox"@,
            "no usable sandbox backend: "@ + detail,
            "Tools that execute anything will refuse to run. Install a backend, or set security.allow_degraded_sandbox deliberately to accept reduced confinement."@,
        )
    }
}

/// Check what confinement is actually available.
#[must_use]
pub fn check_sandbox(available: bool, detail: &str) -> (r: Vec<Finding>)
    ensures
        r.deep_view() == seq![sandbox_finding(available, detail@)],
{
    if available {
        alone(Finding::info("security.sandbox", detail))
    } else {
        let mut message = "no usable sandbox backend: ".to_owned();
        message.push_str(detail);
        alone(
            Finding::error(
                "security.sandbox",
                message.as_str(),
                "Tools that execute anything will refuse to run. Install a backend, or set security.allow_degraded_sandbox deliberately to accept reduced confinement.",
            ),
        )
    }
}

/// What to say about cost reporting.
pub open spec fn cost_finding(reports: bool) -> FindingView {
    if reports {
        info_finding("cost.reporting"@, "this provider reports what each call cost"@)
    } else {
        warn_finding(
            "cost.reporting"@,
            "this provider reports tokens but not money, so any figure Frey shows is an estimate"@,
            "Read cost figures as estimates, or use a provider that reports cost if exact accounting matters."@,
        )
    }
}

/// Check whether costs will be complete.
#[must_use]
pub fn check_cost_reporting(caps: &ProviderCapabilities) -> (r: Vec<Finding>)
    ensures
        r.deep_view() == seq![cost_finding(caps.reports_cost)],
{
    if caps.reports_cost {
        alone(Finding::info("cost.reporting", "this provider reports what each call cost"))
    } else {
        alone(
            Finding::warn(
                "cost.reporting",
                "this provider reports tokens but not money, so any figure Frey shows is an estimate",
                "Read cost figures as estimates, or use a provider that reports cost if exact accounting matters.",
            ),
        )
    }
}

/// Every check says what to do, where there is something to do.
pub proof fn every_finding_is_actionable(
    tool: ToolDefinitionView,
    prefix: u32,
    minimum: Option<u32>,
    budget: u8,
    realised: usize,
    flag: bool,
    detail: Seq<char>,
)
    ensures
        actionable(hard_to_find(tool)),
        actionable(cache_finding(prefix, minimum)),
        actionable(mark_finding(detail, budget, realised, flag)),
        actionable(sandbox_finding(flag, detail)),
        actionable(cost_finding(flag)),
{
}

/// A report is healthy exactly where nothing in it is an error, and lists errors before warnings and
/// warnings before notes.
pub proof fn errors_come_before_warnings(findings: Seq<Finding>, i: int, j: int)
    requires
        0 <= i < j < sorted(findings).len(),
    ensures
        sorted(findings)[j].severity == Severity::Error ==> sorted(findings)[i].severity
            == Severity::Error,
        sorted(findings)[i].severity == Severity::Info ==> sorted(findings)[j].severity
            == Severity::Info,
        healthy(findings) <==> !exists|k: int|
            0 <= k < findings.len() && (#[trigger] findings[k]).severity == Severity::Error,
{
    sorting_orders_and_keeps(findings);
    let order = sorted(findings);
    assert(!order[j].before(&order[i]));
}

/// A finding reads back from its report: what was checked, how bad it is, what was found, and how to
/// mend it where that is known.
pub proof fn findings_read_back(f: FindingView)
    ensures
        finding_json(f).get_str("check"@) == Some(f.check),
        finding_json(f).get_str("severity"@) == Some(
            match f.severity {
                Severity::Info => "info"@,
                Severity::Warn => "warn"@,
                Severity::Error => "error"@,
            },
        ),
        finding_json(f).get_str("message"@) == Some(f.message),
        finding_json(f).get("fix"@) == match f.fix {
            Some(fix) => Some(JsonView::Text(fix)),
            None => None,
        },
{
    broadcast use a_field_that_is_set_reads_back;

    finding_names_differ();
}

/// A report says whether it is healthy, and holds every finding in its order.
pub proof fn reports_read_back(findings: Seq<Finding>)
    ensures
        report_json(findings).get("healthy"@) == Some(JsonView::Bool(healthy(findings))),
        match report_json(findings).get("findings"@) {
            Some(JsonView::Array(all)) => all.len() == findings.len() && forall|i: int|
                0 <= i < findings.len() ==> #[trigger] all[i] == finding_json(findings[i]@),
            _ => false,
        },
{
    broadcast use a_field_that_is_set_reads_back;

    finding_names_differ();
}

proof fn finding_names_differ()
    ensures
        "check"@ != "severity"@,
        "check"@ != "message"@,
        "check"@ != "fix"@,
        "severity"@ != "message"@,
        "severity"@ != "fix"@,
        "message"@ != "fix"@,
        "healthy"@ != "findings"@,
{
    reveal_strlit("check");
    reveal_strlit("severity");
    reveal_strlit("message");
    reveal_strlit("fix");
    reveal_strlit("healthy");
    reveal_strlit("findings");
    assert("check"@.len() != "severity"@.len());
    assert("check"@.len() != "message"@.len());
    assert("check"@.len() != "fix"@.len());
    assert("severity"@.len() != "message"@.len());
    assert("severity"@.len() != "fix"@.len());
    assert("message"@.len() != "fix"@.len());
    assert("healthy"@.len() != "findings"@.len());
}

/// A tool that is hard to find is warned about by name, with every problem it has: how few words
/// describe it, and which parameters nobody can find.
pub proof fn hard_to_find_tools_are_named(tool: ToolDefinitionView, i: int)
    ensures
        hard_to_find(tool).severity == Severity::Warn,
        mentions(hard_to_find(tool).message, tool.name),
        0 <= i < problems_of(tool).len() ==> mentions(
            hard_to_find(tool).message,
            problem_text(problems_of(tool)[i]),
        ),
        0 <= i < problems_of(tool).len() ==> match problems_of(tool)[i] {
            DiscoverabilityView::ThinDescription { words } => mentions(
                problem_text(problems_of(tool)[i]),
                dec(words),
            ),
            DiscoverabilityView::UndocumentedParameters { names } => forall|k: int|
                0 <= k < names.len() ==> mentions(
                    problem_text(problems_of(tool)[i]),
                    #[trigger] names[k],
                ),
            _ => true,
        },
{
    broadcast use group_mentions;

    let problems = problems_of(tool);
    let told = Seq::new(problems.len(), |i: int| problem_text(problems[i]));
    if 0 <= i < problems.len() {
        joining_keeps_every_part(told, "; "@, i, told[i]);
        if let DiscoverabilityView::UndocumentedParameters { names } = problems[i] {
            assert forall|k: int| 0 <= k < names.len() implies mentions(
                problem_text(problems[i]),
                #[trigger] names[k],
            ) by {
                joining_keeps_every_part(names, ", "@, k, names[k]);
            }
        }
    }
}

/// A catalog is warned about tool by tool, in its order: once for a tool that has any problem, and
/// not for one that has none.
pub proof fn tools_are_warned_about_in_order(
    a: Seq<ToolDefinitionView>,
    b: Seq<ToolDefinitionView>,
    tool: ToolDefinitionView,
)
    ensures
        catalog_findings(a + b) == catalog_findings(a) + catalog_findings(b),
        problems_of(tool).len() > 0 ==> catalog_findings(seq![tool]) == seq![hard_to_find(tool)],
        problems_of(tool).len() == 0 ==> catalog_findings(seq![tool]).len() == 0,
    decreases b.len(),
{
    reveal_with_fuel(catalog_findings, 2);
    assert(seq![tool].drop_last() == Seq::<ToolDefinitionView>::empty());
    if b.len() == 0 {
        assert(a + b == a);
    } else {
        tools_are_warned_about_in_order(a, b.drop_last(), tool);
        assert((a + b).drop_last() == a + b.drop_last());
        assert((a + b).last() == b.last());
    }
}

/// A prefix is warned about exactly where the model caches and the prefix is too short for it, and
/// what is said of it gives both figures.
pub proof fn short_prefixes_are_warned_about(prefix: u32, minimum: Option<u32>)
    ensures
        cache_finding(prefix, minimum).severity == Severity::Warn <==> (minimum is Some && prefix
            < minimum->0),
        cache_finding(prefix, minimum).severity != Severity::Error,
        minimum matches Some(m) ==> mentions(cache_finding(prefix, minimum).message, dec(prefix as nat))
            && mentions(cache_finding(prefix, minimum).message, dec(m as nat)),
{
    broadcast use group_mentions;

}

/// A provider that takes breakpoints and realises none is in error, one that takes none and does not
/// cache is warned about, and any other is fine. It is named in each case.
pub proof fn lost_breakpoints_are_errors(
    provider: Seq<char>,
    budget: u8,
    realised: usize,
    automatic: bool,
)
    ensures
        mark_finding(provider, budget, realised, automatic).severity == Severity::Error <==> budget > 0
            && realised == 0,
        mark_finding(provider, budget, realised, automatic).severity == Severity::Warn <==> budget == 0
            && !automatic,
        mentions(mark_finding(provider, budget, realised, automatic).message, provider),
        budget > 0 && realised > 0 ==> mentions(
            mark_finding(provider, budget, realised, automatic).message,
            dec(budget as nat),
        ) && mentions(
            mark_finding(provider, budget, realised, automatic).message,
            dec(realised as nat),
        ),
{
    broadcast use group_mentions;

}

/// No usable sandbox is an error, a provider that does not report cost is warned about, and what is
/// known of the sandbox is passed on.
pub proof fn a_missing_sandbox_is_an_error(available: bool, detail: Seq<char>, reports: bool)
    ensures
        sandbox_finding(available, detail).severity == Severity::Error <==> !available,
        sandbox_finding(available, detail).severity == Severity::Info <==> available,
        mentions(sandbox_finding(available, detail).message, detail),
        cost_finding(reports).severity == Severity::Warn <==> !reports,
        cost_finding(reports).severity == Severity::Info <==> reports,
{
    broadcast use group_mentions;

}

} // verus!
