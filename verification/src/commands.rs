//! What each command of the command line says.

use vstd::prelude::*;

use crate::doctor::{catalog_findings, check_cache_marks, check_cost_reporting, check_discoverability, check_sandbox, cost_finding, healthy, info_finding, mark_finding, report_json, sandbox_finding, Finding, FindingView, Report, Severity};
use crate::json::{json_views, json_with, no_fields, uint_view, Json, JsonView, a_field_that_is_set_reads_back};
use crate::order::sorted;
use crate::profiles;
use crate::profiles::{all_profiles, profile_views};
use crate::provider_caps::{CacheView, CapabilitiesView, ProviderCapabilities};
use crate::sandbox::{control_list, control_list_text, Control};
use crate::text::{chars_of, dec, decimal, decimal_usize, no_text, same_text, trim, trimmed, group_mentions, mentions};
use crate::tool_def::{ToolDefinition, ToolDefinitionView};

verus! {

/// What the command line asks for.
#[derive(Debug, PartialEq, Eq)]
pub enum Command {
    /// Print the help text.
    Help,
    /// Print the version.
    Version,
    /// Diagnose the host.
    Doctor,
    /// Show what each supported model can do.
    Profiles,
    /// Report which tools would be hard to find.
    Tools,
    /// Something that is no command.
    Unknown(String),
}

/// Whether an argument is a flag.
pub open spec fn is_flag(a: Seq<char>) -> bool {
    a.len() >= 2 && a[0] == '-' && a[1] == '-'
}

/// The first argument that is no flag.
pub open spec fn first_word(args: Seq<Seq<char>>) -> Option<Seq<char>>
    decreases args.len(),
{
    if args.len() == 0 {
        None
    } else if !is_flag(args[0]) {
        Some(args[0])
    } else {
        first_word(args.drop_first())
    }
}

/// What a first word asks for.
pub open spec fn asks_for(word: Option<Seq<char>>, c: Command) -> bool {
    match word {
        None => c is Help,
        Some(w) => if w == "help"@ || w == "-h"@ {
            c is Help
        } else if w == "version"@ {
            c is Version
        } else if w == "doctor"@ {
            c is Doctor
        } else if w == "profiles"@ {
            c is Profiles
        } else if w == "tools"@ {
            c is Tools
        } else {
            c matches Command::Unknown(u) && u@ == w
        },
    }
}

fn flag(arg: &str) -> (r: bool)
    ensures
        r == is_flag(arg@),
{
    let chars = chars_of(arg);
    chars.len() >= 2 && chars[0] == '-' && chars[1] == '-'
}

/// Read the arguments: the command, and whether its output is to be machine-readable.
pub fn parse_args(args: &Vec<String>) -> (r: (Command, bool))
    ensures
        asks_for(first_word(crate::text::texts(args@)), r.0),
        r.1 == crate::text::texts(args@).contains("--json"@),
{
    let json = crate::text::holds_text(args, "--json");
    let ghost all = crate::text::texts(args@);
    let mut i: usize = 0;
    assert(all.skip(0) == all);
    while i < args.len()
        invariant
            i <= args@.len(),
            all == crate::text::texts(args@),
            first_word(all) == first_word(all.skip(i as int)),
            json == all.contains("--json"@),
        decreases args@.len() - i,
    {
        let ghost rest = all.skip(i as int);
        assert(rest[0] == args@[i as int]@);
        assert(rest.drop_first() == all.skip(i + 1));
        let word = args[i].as_str();
        if !flag(word) {
            let command = if same_text(word, "help") || same_text(word, "-h") {
                Command::Help
            } else if same_text(word, "version") {
                Command::Version
            } else if same_text(word, "doctor") {
                Command::Doctor
            } else if same_text(word, "profiles") {
                Command::Profiles
            } else if same_text(word, "tools") {
                Command::Tools
            } else {
                Command::Unknown(word.to_owned())
            };
            return (command, json);
        }
        i = i + 1;
    }
    (Command::Help, json)
}

/// The help text.
#[must_use]
pub fn help() -> (r: String)
    ensures
        r@
            == "frey \u{2014} a Rust agent framework where the context window is a managed resource\n\nUSAGE\n    frey <command> [--json]\n\nCOMMANDS\n    doctor     Diagnose this host: confinement, cost reporting, what is missing\n    profiles   Show what each supported model can do, and where it caches from\n    tools      Report which tools in a catalog would be hard to find\n    version    Print the version\n    help       Print this\n\nFLAGS\n    --json     Machine-readable output. `doctor --json` is a stable API.\n"@,
{
    "frey \u{2014} a Rust agent framework where the context window is a managed resource\n\nUSAGE\n    frey <command> [--json]\n\nCOMMANDS\n    doctor     Diagnose this host: confinement, cost reporting, what is missing\n    profiles   Show what each supported model can do, and where it caches from\n    tools      Report which tools in a catalog would be hard to find\n    version    Print the version\n    help       Print this\n\nFLAGS\n    --json     Machine-readable output. `doctor --json` is a stable API.\n".to_owned()
}

/// How a severity is marked in a report.
pub open spec fn marker(s: Severity) -> Seq<char> {
    match s {
        Severity::Error => "error"@,
        Severity::Warn => " warn"@,
        Severity::Info => " info"@,
    }
}

/// A finding as it is printed.
pub open spec fn finding_lines(f: FindingView) -> Seq<char> {
    marker(f.severity) + "  "@ + f.check + "  "@ + f.message + "\n"@ + (match f.fix {
        Some(x) => "       fix: "@ + x + "\n"@,
        None => ""@,
    })
}

/// Some findings as they are printed.
pub open spec fn findings_lines(f: Seq<Finding>) -> Seq<char>
    decreases f.len(),
{
    if f.len() == 0 {
        Seq::empty()
    } else {
        findings_lines(f.drop_last()) + finding_lines(f.last()@)
    }
}

/// A report as it is printed.
pub open spec fn report_lines(f: Seq<Finding>) -> Seq<char> {
    if f.len() == 0 {
        " info  nothing to report\n"@
    } else {
        findings_lines(f)
    }
}

fn print_finding(f: &Finding) -> (r: String)
    ensures
        r@ == finding_lines(f@),
{
    let mut out = match f.severity {
        Severity::Error => "error".to_owned(),
        Severity::Warn => " warn".to_owned(),
        Severity::Info => " info".to_owned(),
    };
    out.push_str("  ");
    out.push_str(f.check.as_str());
    out.push_str("  ");
    out.push_str(f.message.as_str());
    out.push_str("\n");
    let tail = match &f.fix {
        Some(x) => {
            let mut t = "       fix: ".to_owned();
            t.push_str(x.as_str());
            t.push_str("\n");
            t
        },
        None => "".to_owned(),
    };
    out.push_str(tail.as_str());
    out
}

/// A report as it is printed.
pub fn report_text(report: &Report) -> (r: String)
    ensures
        r@ == report_lines(report.findings@),
{
    if report.findings.len() == 0 {
        return " info  nothing to report\n".to_owned();
    }
    let ghost all = report.findings@;
    let mut out = String::new();
    let mut i: usize = 0;
    while i < report.findings.len()
        invariant
            i <= report.findings@.len(),
            all == report.findings@,
            out@ == findings_lines(all.take(i as int)),
        decreases report.findings@.len() - i,
    {
        assert(all.take(i + 1).drop_last() == all.take(i as int));
        out.push_str(print_finding(&report.findings[i]).as_str());
        i = i + 1;
    }
    assert(all.take(all.len() as int) == all);
    out
}

/// What a command prints.
#[derive(Debug, PartialEq, Eq)]
pub enum Output {
    /// A JSON document.
    Document(Json),
    /// Text, with its line ends.
    Text(String),
}

/// What is printed of a report, and whether the command succeeds: only where nothing is broken.
pub fn emit(report: &Report, json: bool) -> (r: (Output, bool))
    ensures
        match r.0 {
            Output::Document(d) => json && d@ == report_json(report.findings@),
            Output::Text(t) => !json && t@ == report_lines(report.findings@),
        },
        r.1 == healthy(report.findings@),
{
    let output = if json {
        Output::Document(report.to_json())
    } else {
        Output::Text(report_text(report))
    };
    (output, report.is_healthy())
}

/// What there is to say about a host, before it is sorted.
pub open spec fn host_findings(
    usable: bool,
    detail: Seq<char>,
    controls: Seq<Control>,
    marks: Seq<(&str, u8, usize, bool)>,
) -> Seq<FindingView> {
    seq![
        sandbox_finding(usable, detail),
        info_finding(
            "security.enforced"@,
            "controls actually available here: "@ + control_list_text(controls),
        ),
    ] + Seq::new(
        marks.len(),
        |i: int| mark_finding(marks[i].0@, marks[i].1, marks[i].2, marks[i].3),
    ) + seq![
        cost_finding(false),
        info_finding(
            "profiles.checked"@,
            "provider figures were last verified against vendor documentation on "@
                + profiles::CHECKED@,
        ),
    ]
}

/// The views of some findings.
pub open spec fn finding_views(f: Seq<Finding>) -> Seq<FindingView> {
    Seq::new(f.len(), |i: int| f[i]@)
}

/// Diagnose a host: what confinement it offers, what each dialect does with a cache plan, whether
/// costs are complete, and how old the provider figures are. The worst comes first.
pub fn doctor(
    usable: bool,
    detail: &str,
    controls: &[Control],
    marks: &[(&str, u8, usize, bool)],
) -> (r: Report)
    ensures
        exists|found: Seq<Finding>| #[trigger]
            finding_views(found) == host_findings(usable, detail@, controls@, marks@)
                && r.findings@ == sorted(found),
{
    let mut report = Report::default();
    let sandbox = check_sandbox(usable, detail);
    let ghost a = sandbox@;
    assert(sandbox.deep_view() == finding_views(a));
    report.extend(sandbox);
    let mut enforced = "controls actually available here: ".to_owned();
    enforced.push_str(control_list(controls).as_str());
    let b = Finding::info("security.enforced", enforced.as_str());
    let ghost b_view = b@;
    report.findings.push(b);
    let dialects = check_cache_marks(marks);
    let ghost c = dialects@;
    assert(dialects.deep_view() == finding_views(c));
    report.extend(dialects);
    let profile = profiles::opus5();
    let cost = check_cost_reporting(&profile);
    let ghost d = cost@;
    assert(cost.deep_view() == finding_views(d));
    report.extend(cost);
    let mut age =
        "provider figures were last verified against vendor documentation on ".to_owned();
    age.push_str(profiles::CHECKED);
    let e = Finding::info("profiles.checked", age.as_str());
    let ghost e_view = e@;
    report.findings.push(e);
    let ghost found = report.findings@;
    proof {
        assert(profile@.reports_cost == profile.reports_cost);
        assert(finding_views(d) == seq![cost_finding(false)]);
        let want = host_findings(usable, detail@, controls@, marks@);
        assert(found == a + seq![b] + c + d + seq![e]);
        assert(finding_views(a)[0] == a[0]@);
        assert(finding_views(d)[0] == d[0]@);
        assert(a.len() == 1 && d.len() == 1) by {
            assert(finding_views(a).len() == a.len());
            assert(finding_views(d).len() == d.len());
        }
        assert forall|i: int| 0 <= i < found.len() implies finding_views(found)[i] == want[i] by {
            if i >= 2 && i < 2 + c.len() {
                assert(finding_views(c)[i - 2] == c[i - 2]@);
            }
        }
        assert(finding_views(found) =~= want);
    }
    report.sort();
    report
}

/// The findings about a catalog, before they are sorted.
pub open spec fn tools_findings(defs: Seq<ToolDefinitionView>) -> Seq<FindingView> {
    let found = catalog_findings(defs);
    if found.len() == 0 {
        seq![
            info_finding(
                "tools.discoverability"@,
                "all "@ + dec(defs.len()) + " tools are well described"@,
            ),
        ]
    } else {
        found
    }
}

/// Report which tools would be hard to find.
pub fn tools(definitions: &[ToolDefinition]) -> (r: Report)
    ensures
        exists|found: Seq<Finding>| #[trigger]
            finding_views(found) == tools_findings(definitions.deep_view()) && r.findings@
                == sorted(found),
{
    let mut report = Report::default();
    let hard = check_discoverability(definitions);
    let ghost h = hard@;
    assert(hard.deep_view() == finding_views(h));
    report.extend(hard);
    assert(report.findings@ == h);
    if report.findings.len() == 0 {
        let mut message = "all ".to_owned();
        message.push_str(decimal_usize(definitions.len()).as_str());
        message.push_str(" tools are well described");
        report.findings.push(Finding::info("tools.discoverability", message.as_str()));
        assert(finding_views(report.findings@) == tools_findings(definitions.deep_view()));
    }
    let ghost found = report.findings@;
    assert(finding_views(found) == tools_findings(definitions.deep_view()));
    report.sort();
    report
}

/// Whether there is a catalog to read.
pub fn has_input(input: &str) -> (r: bool)
    ensures
        r == (trimmed(input@).len() > 0),
{
    !no_text(trim(input).as_str())
}

/// The shortest prefix that is cached.
pub open spec fn shortest(c: CacheView) -> Option<u32> {
    match c {
        CacheView::Explicit { min_prefix_tokens, .. } => Some(min_prefix_tokens),
        CacheView::Automatic { min_prefix_tokens, .. } => Some(min_prefix_tokens),
        CacheView::Absent => None,
    }
}

/// How many breakpoints may be placed.
pub open spec fn breakpoints(c: CacheView) -> u8 {
    match c {
        CacheView::Explicit { max_breakpoints, .. } => max_breakpoints,
        CacheView::Automatic { explicit_available, .. } => if explicit_available {
            1u8
        } else {
            0u8
        },
        CacheView::Absent => 0u8,
    }
}

/// A profile on the wire.
pub open spec fn profile_json(name: Seq<char>, caps: CapabilitiesView) -> JsonView {
    json_with(
        json_with(
            json_with(
                json_with(
                    json_with(
                        json_with(
                            json_with(no_fields(), "name"@, JsonView::Text(name)),
                            "minCacheablePrefix"@,
                            match shortest(caps.cache) {
                                Some(m) => uint_view(m as u64),
                                None => JsonView::Null,
                            },
                        ),
                        "cacheBreakpoints"@,
                        uint_view(breakpoints(caps.cache) as u64),
                    ),
                    "nativeToolSearch"@,
                    JsonView::Bool(caps.tool_search is Native),
                ),
                "programmaticToolCalling"@,
                JsonView::Bool(caps.programmatic_tool_calling),
            ),
            "reportsCost"@,
            JsonView::Bool(caps.reports_cost),
        ),
        "maxContext"@,
        uint_view(caps.max_context as u64),
    )
}

fn one_profile(name: &str, caps: &ProviderCapabilities) -> (r: Json)
    ensures
        r@ == profile_json(name@, caps@),
{
    let minimum = match caps.cache.min_prefix_tokens() {
        Some(m) => Json::natural(m as u64),
        None => Json::Null,
    };
    Json::empty().with("name", Json::text(name)).with("minCacheablePrefix", minimum).with(
        "cacheBreakpoints",
        Json::natural(caps.cache.breakpoint_budget() as u64),
    ).with("nativeToolSearch", Json::flag(caps.tool_search.is_native())).with(
        "programmaticToolCalling",
        Json::flag(caps.programmatic_tool_calling),
    ).with("reportsCost", Json::flag(caps.reports_cost)).with(
        "maxContext",
        Json::natural(caps.max_context as u64),
    )
}

/// The profiles on the wire.
pub open spec fn listing_json() -> JsonView {
    JsonView::Array(
        Seq::new(
            all_profiles().len(),
            |i: int| profile_json(all_profiles()[i].0, all_profiles()[i].1),
        ),
    )
}

/// What each supported model can do, as a JSON document.
pub fn profiles_json() -> (r: Json)
    ensures
        r@ == listing_json(),
{
    let all = profiles::all();
    let ghost views = profile_views(all@);
    let mut rows: Vec<Json> = Vec::new();
    let mut i: usize = 0;
    while i < all.len()
        invariant
            i <= all@.len(),
            views == profile_views(all@),
            rows@.len() == i,
            forall|j: int|
                0 <= j < i ==> (#[trigger] rows@[j])@ == profile_json(views[j].0, views[j].1),
        decreases all@.len() - i,
    {
        rows.push(one_profile(all[i].0, &all[i].1));
        i = i + 1;
    }
    assert(json_views(rows@) == Seq::new(
        all_profiles().len(),
        |i: int| profile_json(all_profiles()[i].0, all_profiles()[i].1),
    ));
    Json::array(rows)
}

/// Some spaces.
pub open spec fn spaces(n: nat) -> Seq<char> {
    Seq::new(n, |i: int| ' ')
}

/// A text with spaces behind it, up to a width.
pub open spec fn padded(s: Seq<char>, width: nat) -> Seq<char> {
    if s.len() < width {
        s + spaces((width - s.len()) as nat)
    } else {
        s
    }
}

/// A text with spaces in front of it, up to a width.
pub open spec fn indented(s: Seq<char>, width: nat) -> Seq<char> {
    if s.len() < width {
        spaces((width - s.len()) as nat) + s
    } else {
        s
    }
}

fn blank(n: usize) -> (r: String)
    ensures
        r@ == spaces(n as nat),
{
    let mut out = String::new();
    let mut i: usize = 0;
    while i < n
        invariant
            i <= n,
            out@ == spaces(i as nat),
        decreases n - i,
    {
        out.push(' ');
        assert(out@ == spaces((i + 1) as nat));
        i = i + 1;
    }
    out
}

fn pad(s: &str, width: usize) -> (r: String)
    ensures
        r@ == padded(s@, width as nat),
{
    let n: usize = chars_of(s).len();
    let mut out = s.to_owned();
    if n < width {
        out.push_str(blank(width - n).as_str());
    }
    out
}

fn indent(s: &str, width: usize) -> (r: String)
    ensures
        r@ == indented(s@, width as nat),
{
    let n: usize = chars_of(s).len();
    if n < width {
        let mut out = blank(width - n);
        out.push_str(s);
        out
    } else {
        s.to_owned()
    }
}

/// One line of the table of models.
pub open spec fn table_line(
    a: Seq<char>,
    b: Seq<char>,
    c: Seq<char>,
    d: Seq<char>,
    e: Seq<char>,
) -> Seq<char> {
    padded(a, 22) + " "@ + indented(b, 10) + " "@ + indented(c, 12) + " "@ + indented(d, 8) + " "@
        + indented(e, 7) + "\n"@
}

/// The line for a profile.
pub open spec fn profile_line(name: Seq<char>, caps: CapabilitiesView) -> Seq<char> {
    table_line(
        name,
        match shortest(caps.cache) {
            Some(m) => dec(m as nat),
            None => "-"@,
        },
        dec(breakpoints(caps.cache) as nat),
        if caps.tool_search is Native {
            "native"@
        } else {
            "local"@
        },
        if caps.reports_cost {
            "yes"@
        } else {
            "est."@
        },
    )
}

/// The lines for some profiles.
pub open spec fn profile_lines(all: Seq<(Seq<char>, CapabilitiesView)>) -> Seq<char>
    decreases all.len(),
{
    if all.len() == 0 {
        Seq::empty()
    } else {
        profile_lines(all.drop_last()) + profile_line(all.last().0, all.last().1)
    }
}

fn line(a: &str, b: &str, c: &str, d: &str, e: &str) -> (r: String)
    ensures
        r@ == table_line(a@, b@, c@, d@, e@),
{
    let mut out = pad(a, 22);
    out.push_str(" ");
    out.push_str(indent(b, 10).as_str());
    out.push_str(" ");
    out.push_str(indent(c, 12).as_str());
    out.push_str(" ");
    out.push_str(indent(d, 8).as_str());
    out.push_str(" ");
    out.push_str(indent(e, 7).as_str());
    out.push_str("\n");
    out
}

fn one_line_of(name: &str, caps: &ProviderCapabilities) -> (r: String)
    ensures
        r@ == profile_line(name@, caps@),
{
    let minimum = match caps.cache.min_prefix_tokens() {
        Some(m) => decimal(m as u64),
        None => "-".to_owned(),
    };
    let budget = decimal(caps.cache.breakpoint_budget() as u64);
    line(
        name,
        minimum.as_str(),
        budget.as_str(),
        if caps.tool_search.is_native() {
            "native"
        } else {
            "local"
        },
        if caps.reports_cost {
            "yes"
        } else {
            "est."
        },
    )
}

/// The profiles as they are printed.
pub open spec fn listing_lines() -> Seq<char> {
    table_line("model"@, "min-prefix"@, "breakpoints"@, "search"@, "cost"@) + profile_lines(
        all_profiles(),
    ) + ("\nFigures verified against vendor documentation on "@ + profiles::CHECKED@
        + ". `cost: est.` means the provider\nreports tokens but not money, so any figure Frey shows is an estimate.\n"@)
}

/// What each supported model can do, as a table.
pub fn profiles_table() -> (r: String)
    ensures
        r@ == listing_lines(),
{
    let mut out = line("model", "min-prefix", "breakpoints", "search", "cost");
    let ghost head = out@;
    let all = profiles::all();
    let ghost views = profile_views(all@);
    let mut i: usize = 0;
    assert(head + profile_lines(views.take(0)) == head);
    while i < all.len()
        invariant
            i <= all@.len(),
            views == profile_views(all@),
            out@ == head + profile_lines(views.take(i as int)),
        decreases all@.len() - i,
    {
        assert(views.take(i + 1).drop_last() == views.take(i as int));
        assert(views.take(i + 1).last() == (all@[i as int].0@, all@[i as int].1@));
        let ghost before = out@;
        let row = one_line_of(all[i].0, &all[i].1);
        out.push_str(row.as_str());
        assert(out@ == head + (profile_lines(views.take(i as int)) + row@));
        i = i + 1;
    }
    assert(views.take(views.len() as int) == views);
    let mut foot = "\nFigures verified against vendor documentation on ".to_owned();
    foot.push_str(profiles::CHECKED);
    foot.push_str(
        ". `cost: est.` means the provider\nreports tokens but not money, so any figure Frey shows is an estimate.\n",
    );
    out.push_str(foot.as_str());
    out
}

/// Show what each supported model can do.
pub fn profiles(json: bool) -> (r: Output)
    ensures
        match r {
            Output::Document(d) => json && d@ == listing_json(),
            Output::Text(t) => !json && t@ == listing_lines(),
        },
{
    if json {
        Output::Document(profiles_json())
    } else {
        Output::Text(profiles_table())
    }
}

/// The command is the first word that is no flag, wherever the flags stand before it.
pub proof fn the_first_word_is_the_command(flags: Seq<Seq<char>>, word: Seq<char>, rest: Seq<Seq<char>>)
    requires
        forall|i: int|
            0 <= i < flags.len() ==> (#[trigger] flags[i]).len() >= 2 && flags[i][0] == '-'
                && flags[i][1] == '-',
        !(word.len() >= 2 && word[0] == '-' && word[1] == '-'),
    ensures
        first_word(flags + seq![word] + rest) == Some(word),
        first_word(flags) is None,
    decreases flags.len(),
{
    let all = flags + seq![word] + rest;
    if flags.len() > 0 {
        let fewer = flags.drop_first();
        assert forall|i: int| 0 <= i < fewer.len() implies (#[trigger] fewer[i]).len() >= 2
            && fewer[i][0] == '-' && fewer[i][1] == '-' by {
            assert(fewer[i] == flags[i + 1]);
        }
        the_first_word_is_the_command(fewer, word, rest);
        assert(all.drop_first() == fewer + seq![word] + rest);
        assert(all[0] == flags[0]);
    } else {
        assert(all[0] == word);
    }
}

/// What is printed of a finding holds what was checked, what was found, and how to mend it.
pub proof fn findings_are_printed_in_full(f: FindingView)
    ensures
        mentions(finding_lines(f), f.check),
        mentions(finding_lines(f), f.message),
        f.fix matches Some(fix) ==> mentions(finding_lines(f), fix),
        f.severity == Severity::Error ==> mentions(finding_lines(f), "error"@),
        f.severity == Severity::Warn ==> mentions(finding_lines(f), " warn"@),
        f.severity == Severity::Info ==> mentions(finding_lines(f), " info"@),
{
    broadcast use group_mentions;

}

/// A report prints every finding, one behind the other.
pub proof fn every_finding_is_printed(findings: Seq<Finding>, i: int)
    requires
        0 <= i < findings.len(),
    ensures
        mentions(report_lines(findings), finding_lines(findings[i]@)),
        report_lines(findings) == findings_lines(findings.drop_last()) + finding_lines(
            findings.last()@,
        ),
    decreases findings.len(),
{
    broadcast use group_mentions;

    if i < findings.len() - 1 {
        every_finding_is_printed(findings.drop_last(), i);
    }
}

/// What is said of a host begins with its sandbox and the controls it has, and says of every
/// provider what becomes of its breakpoints.
pub proof fn hosts_are_reported_in_full(
    usable: bool,
    detail: Seq<char>,
    controls: Seq<Control>,
    marks: Seq<(&str, u8, usize, bool)>,
    i: int,
)
    ensures
        host_findings(usable, detail, controls, marks).len() == marks.len() + 4,
        host_findings(usable, detail, controls, marks)[0] == sandbox_finding(usable, detail),
        mentions(
            host_findings(usable, detail, controls, marks)[1].message,
            control_list_text(controls),
        ),
        0 <= i < marks.len() ==> host_findings(usable, detail, controls, marks)[i + 2]
            == mark_finding(marks[i].0@, marks[i].1, marks[i].2, marks[i].3),
{
    broadcast use group_mentions;

}

/// A catalog without problems is said to have none, and how many tools it holds. Otherwise every
/// problem is reported.
pub proof fn sound_catalogs_are_counted(defs: Seq<ToolDefinitionView>)
    ensures
        catalog_findings(defs).len() > 0 ==> tools_findings(defs) == catalog_findings(defs),
        catalog_findings(defs).len() == 0 ==> tools_findings(defs).len() == 1 && tools_findings(
            defs,
        )[0].severity == Severity::Info && mentions(
            tools_findings(defs)[0].message,
            dec(defs.len()),
        ),
{
    broadcast use group_mentions;

}

/// A profile reads back as what it is: the shortest prefix it caches, its breakpoints, who searches
/// tools, who reports cost, and how much it takes.
pub proof fn profiles_read_back(name: Seq<char>, caps: CapabilitiesView)
    ensures
        ({
            let j = profile_json(name, caps);
            &&& j.get_str("name"@) == Some(name)
            &&& j.get("minCacheablePrefix"@) == Some(
                match caps.cache {
                    CacheView::Explicit { min_prefix_tokens, .. } => uint_view(
                        min_prefix_tokens as u64,
                    ),
                    CacheView::Automatic { min_prefix_tokens, .. } => uint_view(
                        min_prefix_tokens as u64,
                    ),
                    CacheView::Absent => JsonView::Null,
                },
            )
            &&& j.get("cacheBreakpoints"@) == Some(
                match caps.cache {
                    CacheView::Explicit { max_breakpoints, .. } => uint_view(max_breakpoints as u64),
                    CacheView::Automatic { explicit_available, .. } => uint_view(
                        if explicit_available {
                            1
                        } else {
                            0
                        },
                    ),
                    CacheView::Absent => uint_view(0),
                },
            )
            &&& j.get("nativeToolSearch"@) == Some(JsonView::Bool(caps.tool_search is Native))
            &&& j.get("programmaticToolCalling"@) == Some(
                JsonView::Bool(caps.programmatic_tool_calling),
            )
            &&& j.get("reportsCost"@) == Some(JsonView::Bool(caps.reports_cost))
            &&& j.get("maxContext"@) == Some(uint_view(caps.max_context as u64))
        }),
{
    broadcast use a_field_that_is_set_reads_back;

    profile_names_differ();
}

proof fn profile_names_differ()
    ensures
        "name"@ != "minCacheablePrefix"@,
        "name"@ != "cacheBreakpoints"@,
        "name"@ != "nativeToolSearch"@,
        "name"@ != "programmaticToolCalling"@,
        "name"@ != "reportsCost"@,
        "name"@ != "maxContext"@,
        "minCacheablePrefix"@ != "cacheBreakpoints"@,
        "minCacheablePrefix"@ != "nativeToolSearch"@,
        "minCacheablePrefix"@ != "programmaticToolCalling"@,
        "minCacheablePrefix"@ != "reportsCost"@,
        "minCacheablePrefix"@ != "maxContext"@,
        "cacheBreakpoints"@ != "nativeToolSearch"@,
        "cacheBreakpoints"@ != "programmaticToolCalling"@,
        "cacheBreakpoints"@ != "reportsCost"@,
        "cacheBreakpoints"@ != "maxContext"@,
        "nativeToolSearch"@ != "programmaticToolCalling"@,
        "nativeToolSearch"@ != "reportsCost"@,
        "nativeToolSearch"@ != "maxContext"@,
        "programmaticToolCalling"@ != "reportsCost"@,
        "programmaticToolCalling"@ != "maxContext"@,
        "reportsCost"@ != "maxContext"@,
{
    reveal_strlit("name");
    reveal_strlit("minCacheablePrefix");
    reveal_strlit("cacheBreakpoints");
    reveal_strlit("nativeToolSearch");
    reveal_strlit("programmaticToolCalling");
    reveal_strlit("reportsCost");
    reveal_strlit("maxContext");
    assert("name"@.len() != "minCacheablePrefix"@.len());
    assert("name"@.len() != "cacheBreakpoints"@.len());
    assert("name"@.len() != "nativeToolSearch"@.len());
    assert("name"@.len() != "programmaticToolCalling"@.len());
    assert("name"@.len() != "reportsCost"@.len());
    assert("name"@.len() != "maxContext"@.len());
    assert("minCacheablePrefix"@.len() != "cacheBreakpoints"@.len());
    assert("minCacheablePrefix"@.len() != "nativeToolSearch"@.len());
    assert("minCacheablePrefix"@.len() != "programmaticToolCalling"@.len());
    assert("minCacheablePrefix"@.len() != "reportsCost"@.len());
    assert("minCacheablePrefix"@.len() != "maxContext"@.len());
    assert("cacheBreakpoints"@[0] != "nativeToolSearch"@[0]);
    assert("cacheBreakpoints"@.len() != "programmaticToolCalling"@.len());
    assert("cacheBreakpoints"@.len() != "reportsCost"@.len());
    assert("cacheBreakpoints"@.len() != "maxContext"@.len());
    assert("nativeToolSearch"@.len() != "programmaticToolCalling"@.len());
    assert("nativeToolSearch"@.len() != "reportsCost"@.len());
    assert("nativeToolSearch"@.len() != "maxContext"@.len());
    assert("programmaticToolCalling"@.len() != "reportsCost"@.len());
    assert("programmaticToolCalling"@.len() != "maxContext"@.len());
    assert("reportsCost"@.len() != "maxContext"@.len());
}

/// A line of the table holds the profile's name and figures, whatever their width.
pub proof fn profiles_are_printed_in_full(name: Seq<char>, caps: CapabilitiesView)
    ensures
        mentions(profile_line(name, caps), name),
        mentions(profile_line(name, caps), dec(breakpoints(caps.cache) as nat)),
        shortest(caps.cache) matches Some(m) ==> mentions(profile_line(name, caps), dec(m as nat)),
        caps.tool_search is Native ==> mentions(profile_line(name, caps), "native"@),
        caps.reports_cost ==> mentions(profile_line(name, caps), "yes"@),
{
    broadcast use group_mentions;

}

/// A cell is filled up with spaces to its width and no further, on the right or on the left, and a
/// longer one stays as it is.
pub proof fn cells_are_filled_up(s: Seq<char>, width: nat)
    ensures
        padded(s, width).len() == indented(s, width).len(),
        padded(s, width).len() == (if s.len() < width {
            width
        } else {
            s.len()
        }),
        padded(s, width).take(s.len() as int) == s,
        indented(s, width).skip(indented(s, width).len() - s.len()) == s,
        forall|i: int| s.len() <= i < padded(s, width).len() ==> padded(s, width)[i] == ' ',
        forall|i: int|
            0 <= i < indented(s, width).len() - s.len() ==> indented(s, width)[i] == ' ',
{
}

/// A word asks for the command of its name, `-h` and nothing at all ask for help, and any other word
/// is not known and is told as it was written.
pub proof fn words_ask_for_commands(word: Option<Seq<char>>, c: Command)
    requires
        asks_for(word, c),
    ensures
        c is Help <==> (word is None || word == Some("help"@) || word == Some("-h"@)),
        c is Version <==> word == Some("version"@),
        c is Doctor <==> word == Some("doctor"@),
        c is Profiles <==> word == Some("profiles"@),
        c is Tools <==> word == Some("tools"@),
        c matches Command::Unknown(told) ==> word == Some(told@),
{
    command_words_differ();
}

proof fn command_words_differ()
    ensures
        "help"@ != "-h"@,
        "help"@ != "version"@,
        "help"@ != "doctor"@,
        "help"@ != "profiles"@,
        "help"@ != "tools"@,
        "-h"@ != "version"@,
        "-h"@ != "doctor"@,
        "-h"@ != "profiles"@,
        "-h"@ != "tools"@,
        "version"@ != "doctor"@,
        "version"@ != "profiles"@,
        "version"@ != "tools"@,
        "doctor"@ != "profiles"@,
        "doctor"@ != "tools"@,
        "profiles"@ != "tools"@,
{
    reveal_strlit("help");
    reveal_strlit("-h");
    reveal_strlit("version");
    reveal_strlit("doctor");
    reveal_strlit("profiles");
    reveal_strlit("tools");
    assert("help"@.len() != "-h"@.len());
    assert("help"@.len() != "version"@.len());
    assert("help"@.len() != "doctor"@.len());
    assert("help"@.len() != "profiles"@.len());
    assert("help"@.len() != "tools"@.len());
    assert("-h"@.len() != "version"@.len());
    assert("-h"@.len() != "doctor"@.len());
    assert("-h"@.len() != "profiles"@.len());
    assert("-h"@.len() != "tools"@.len());
    assert("version"@.len() != "doctor"@.len());
    assert("version"@.len() != "profiles"@.len());
    assert("version"@.len() != "tools"@.len());
    assert("doctor"@.len() != "profiles"@.len());
    assert("doctor"@.len() != "tools"@.len());
    assert("profiles"@.len() != "tools"@.len());
}

/// The table has a line for every profile, behind a line of headings.
pub proof fn every_profile_is_listed(all: Seq<(Seq<char>, CapabilitiesView)>, i: int)
    requires
        0 <= i < all.len(),
    ensures
        mentions(profile_lines(all), profile_line(all[i].0, all[i].1)),
        profile_lines(all) == profile_lines(all.drop_last()) + profile_line(
            all.last().0,
            all.last().1,
        ),
        mentions(listing_lines(), profile_lines(all_profiles())),
        mentions(listing_lines(), "min-prefix"@),
    decreases all.len(),
{
    broadcast use group_mentions;

    if i < all.len() - 1 {
        every_profile_is_listed(all.drop_last(), i);
    }
}

} // verus!
