//! Confining a process: what is asked for, what was enforced, and how the two differ.

use vstd::prelude::*;

use crate::capability::{HostPattern, PathScope, ProgramScope};
use crate::text::{join, joined, own_texts, texts, group_mentions, joining_keeps_every_part, mentions};

verus! {

/// Which backend enforced a policy.
#[derive(Debug, Clone, Copy, PartialEq, Eq, Hash, Structural)]
#[non_exhaustive]
pub enum BackendId {
    /// Linux: Landlock, seccomp-bpf, and a user-notification supervisor.
    Landlock,
    /// Linux without Landlock: user namespaces, seccomp, and rlimits.
    LinuxNamespaces,
    /// macOS Seatbelt.
    Seatbelt,
    /// Windows AppContainer with a job object.
    WindowsAppContainer,
    /// Windows low-integrity restricted token with a job object.
    WindowsRestrictedToken,
    /// A WebAssembly runtime, for plugin code compiled to Wasm.
    Wasm,
}

/// One thing a sandbox can enforce.
#[derive(Debug, Clone, Copy, PartialEq, Eq, PartialOrd, Ord, Hash, Structural)]
#[non_exhaustive]
pub enum Control {
    /// Reads outside the granted scope are denied.
    FilesystemRead,
    /// Writes outside the granted scope are denied.
    FilesystemWrite,
    /// Outbound connections to hosts off the allowlist are denied.
    NetworkEgress,
    /// Only allowlisted programs may be executed.
    ProgramAllowlist,
    /// Memory is capped.
    MemoryLimit,
    /// CPU time is capped.
    CpuLimit,
    /// Process count is capped.
    ProcessLimit,
    /// Wall-clock time is capped.
    WallClockLimit,
    /// Writes are captured so they can be reviewed and reverted.
    CopyOnWrite,
}

/// Every control, in order.
pub open spec fn every_control() -> Seq<Control> {
    seq![
        Control::FilesystemRead,
        Control::FilesystemWrite,
        Control::NetworkEgress,
        Control::ProgramAllowlist,
        Control::MemoryLimit,
        Control::CpuLimit,
        Control::ProcessLimit,
        Control::WallClockLimit,
        Control::CopyOnWrite,
    ]
}

/// The controls among `from` for which `wanted` holds, in order.
pub open spec fn chosen(from: Seq<Control>, wanted: spec_fn(Control) -> bool) -> Seq<Control>
    decreases from.len(),
{
    if from.len() == 0 {
        Seq::empty()
    } else if wanted(from.last()) {
        chosen(from.drop_last(), wanted).push(from.last())
    } else {
        chosen(from.drop_last(), wanted)
    }
}

/// The name of a control.
pub open spec fn control_name(c: Control) -> Seq<char> {
    match c {
        Control::FilesystemRead => "FilesystemRead"@,
        Control::FilesystemWrite => "FilesystemWrite"@,
        Control::NetworkEgress => "NetworkEgress"@,
        Control::ProgramAllowlist => "ProgramAllowlist"@,
        Control::MemoryLimit => "MemoryLimit"@,
        Control::CpuLimit => "CpuLimit"@,
        Control::ProcessLimit => "ProcessLimit"@,
        Control::WallClockLimit => "WallClockLimit"@,
        Control::CopyOnWrite => "CopyOnWrite"@,
    }
}

impl Control {
    /// The control's name.
    #[must_use]
    pub fn name(self) -> (r: &'static str)
        ensures
            r@ == control_name(self),
    {
        match self {
            Control::FilesystemRead => "FilesystemRead",
            Control::FilesystemWrite => "FilesystemWrite",
            Control::NetworkEgress => "NetworkEgress",
            Control::ProgramAllowlist => "ProgramAllowlist",
            Control::MemoryLimit => "MemoryLimit",
            Control::CpuLimit => "CpuLimit",
            Control::ProcessLimit => "ProcessLimit",
            Control::WallClockLimit => "WallClockLimit",
            Control::CopyOnWrite => "CopyOnWrite",
        }
    }
}

/// A list of controls as it is shown: in brackets, separated by commas.
pub open spec fn control_list_text(c: Seq<Control>) -> Seq<char> {
    "["@ + joined(Seq::new(c.len(), |i: int| control_name(c[i])), ", "@) + "]"@
}

/// A list of controls as it is shown.
pub fn control_list(controls: &[Control]) -> (r: String)
    ensures
        r@ == control_list_text(controls@),
{
    let mut names: Vec<String> = Vec::new();
    let mut i: usize = 0;
    while i < controls.len()
        invariant
            i <= controls@.len(),
            names@.len() == i,
            forall|j: int| 0 <= j < i ==> (#[trigger] names@[j])@ == control_name(controls@[j]),
        decreases controls@.len() - i,
    {
        names.push(controls[i].name().to_owned());
        i = i + 1;
    }
    assert(texts(names@) == Seq::new(controls@.len(), |i: int| control_name(controls@[i])));
    let mut s = "[".to_owned();
    s.push_str(join(&names, ", ").as_str());
    s.push_str("]");
    s
}

fn all_controls() -> (r: Vec<Control>)
    ensures
        r@ == every_control(),
{
    vec![
        Control::FilesystemRead,
        Control::FilesystemWrite,
        Control::NetworkEgress,
        Control::ProgramAllowlist,
        Control::MemoryLimit,
        Control::CpuLimit,
        Control::ProcessLimit,
        Control::WallClockLimit,
        Control::CopyOnWrite,
    ]
}

fn holds(controls: &[Control], control: Control) -> (r: bool)
    ensures
        r == controls@.contains(control),
{
    let mut i: usize = 0;
    while i < controls.len()
        invariant
            i <= controls@.len(),
            forall|j: int| 0 <= j < i ==> controls@[j] != control,
        decreases controls@.len() - i,
    {
        if controls[i] == control {
            assert(controls@[i as int] == control);
            return true;
        }
        i = i + 1;
    }
    false
}

/// Which controls a backend actually applied: in order, each once.
#[derive(Debug, Clone, PartialEq, Eq)]
pub struct EnforcedSet(Vec<Control>);

impl View for EnforcedSet {
    type V = Seq<Control>;

    closed spec fn view(&self) -> Seq<Control> {
        self.0@
    }
}

impl Default for EnforcedSet {
    fn default() -> (r: Self)
        ensures
            r@ == Seq::<Control>::empty(),
    {
        EnforcedSet(Vec::new())
    }
}

impl EnforcedSet {
    /// A set containing `controls`.
    pub fn new(controls: &[Control]) -> (r: Self)
        ensures
            r@ == chosen(every_control(), |c: Control| controls@.contains(c)),
    {
        let all = all_controls();
        let ghost wanted = |c: Control| controls@.contains(c);
        let mut out: Vec<Control> = Vec::new();
        let mut i: usize = 0;
        while i < all.len()
            invariant
                i <= all@.len(),
                wanted == (|c: Control| controls@.contains(c)),
                out@ == chosen(all@.take(i as int), wanted),
            decreases all@.len() - i,
        {
            if holds(controls, all[i]) {
                out.push(all[i]);
            }
            proof {
                assert(all@.take(i + 1).drop_last() == all@.take(i as int));
            }
            i = i + 1;
        }
        assert(all@.take(all@.len() as int) == all@);
        EnforcedSet(out)
    }

    /// Whether a control was applied.
    #[must_use]
    pub fn has(&self, control: Control) -> (r: bool)
        ensures
            r == self@.contains(control),
    {
        holds(self.0.as_slice(), control)
    }

    /// Which of `wanted` were not applied.
    #[must_use]
    pub fn missing_from(&self, wanted: &[Control]) -> (r: Vec<Control>)
        ensures
            r@ == chosen(wanted@, |c: Control| !self@.contains(c)),
    {
        let ghost absent = |c: Control| !self@.contains(c);
        let mut out: Vec<Control> = Vec::new();
        let mut i: usize = 0;
        while i < wanted.len()
            invariant
                i <= wanted@.len(),
                absent == (|c: Control| !self@.contains(c)),
                out@ == chosen(wanted@.take(i as int), absent),
            decreases wanted@.len() - i,
        {
            if !self.has(wanted[i]) {
                out.push(wanted[i]);
            }
            proof {
                assert(wanted@.take(i + 1).drop_last() == wanted@.take(i as int));
            }
            i = i + 1;
        }
        assert(wanted@.take(wanted@.len() as int) == wanted@);
        out
    }

    /// The controls, sorted.
    #[must_use]
    pub fn controls(&self) -> (r: &[Control])
        ensures
            r@ == self@,
    {
        self.0.as_slice()
    }
}

proof fn chosen_holds(from: Seq<Control>, wanted: spec_fn(Control) -> bool, c: Control)
    ensures
        chosen(from, wanted).contains(c) <==> from.contains(c) && wanted(c),
    decreases from.len(),
{
    if from.len() > 0 {
        let d = from.drop_last();
        chosen_holds(d, wanted, c);
        let rest = chosen(d, wanted);
        let all = chosen(from, wanted);
        if all.contains(c) {
            let k = choose|k: int| 0 <= k < all.len() && all[k] == c;
            if k < rest.len() {
                assert(rest[k] == c);
                let m = choose|m: int| 0 <= m < d.len() && d[m] == c;
                assert(from[m] == c);
            } else {
                assert(from[from.len() - 1] == c);
            }
        }
        if from.contains(c) && wanted(c) {
            let m = choose|m: int| 0 <= m < from.len() && from[m] == c;
            if m < d.len() {
                assert(d[m] == c);
                let k = choose|k: int| 0 <= k < rest.len() && rest[k] == c;
                assert(all[k] == c);
            } else {
                assert(all[all.len() - 1] == c);
            }
        }
    }
}

/// A set of controls has exactly the controls it was made from.
pub proof fn an_enforced_set_keeps_every_control(controls: Seq<Control>, c: Control)
    ensures
        chosen(every_control(), |x: Control| controls.contains(x)).contains(c) <==> controls.contains(c),
{
    let wanted = |x: Control| controls.contains(x);
    chosen_holds(every_control(), wanted, c);
    let all = every_control();
    assert(all.contains(c)) by {
        match c {
            Control::FilesystemRead => { assert(all[0] == c); },
            Control::FilesystemWrite => { assert(all[1] == c); },
            Control::NetworkEgress => { assert(all[2] == c); },
            Control::ProgramAllowlist => { assert(all[3] == c); },
            Control::MemoryLimit => { assert(all[4] == c); },
            Control::CpuLimit => { assert(all[5] == c); },
            Control::ProcessLimit => { assert(all[6] == c); },
            Control::WallClockLimit => { assert(all[7] == c); },
            Control::CopyOnWrite => { assert(all[8] == c); },
        }
    }
}

/// What is missing is exactly what was wanted and not applied: the sandbox fails closed only where
/// something is missing.
pub proof fn missing_controls_are_exact(applied: Seq<Control>, wanted: Seq<Control>, c: Control)
    ensures
        chosen(wanted, |x: Control| !applied.contains(x)).contains(c) <==> wanted.contains(c)
            && !applied.contains(c),
{
    chosen_holds(wanted, |x: Control| !applied.contains(x), c);
}

/// A control that was requested but could not be applied.
#[derive(Debug, PartialEq, Eq)]
pub struct Degradation {
    /// What could not be enforced.
    pub control: Control,
    /// Why, in terms an operator can act on.
    pub reason: String,
}

/// Something the sandboxed process did to the filesystem.
#[derive(Debug, PartialEq, Eq)]
#[non_exhaustive]
pub enum FsEffect {
    /// A file was created.
    Created {
        /// Which path.
        path: String,
        /// How many bytes.
        bytes: u64,
    },
    /// A file was modified.
    Modified {
        /// Which path.
        path: String,
        /// How many bytes it now has.
        bytes: u64,
    },
    /// A file was removed.
    Removed {
        /// Which path.
        path: String,
    },
}

/// An outbound connection the process attempted.
#[derive(Debug, PartialEq, Eq)]
pub struct EgressAttempt {
    /// The host it tried to reach.
    pub host: String,
    /// Whether it was permitted.
    pub allowed: bool,
}

/// A limit the process ran into.
#[derive(Debug, Clone, Copy, PartialEq, Eq, Structural)]
pub struct LimitHit {
    /// Which limit.
    pub control: Control,
    /// What the limit was.
    pub limit: u64,
}

/// Resource ceilings for a sandboxed process.
#[derive(Debug, Clone, Copy, PartialEq, Eq, Structural)]
pub struct Limits {
    /// Wall-clock milliseconds.
    pub wall_ms: u64,
    /// Bytes of memory.
    pub memory_bytes: u64,
    /// Maximum concurrent processes.
    pub max_pids: u32,
    /// Maximum bytes of captured output. Truncation beyond this is reported, never silent.
    pub max_output_bytes: u64,
}

impl Default for Limits {
    fn default() -> (r: Self)
        ensures
            r == (Limits {
                wall_ms: 120_000,
                memory_bytes: 2_147_483_648,
                max_pids: 64,
                max_output_bytes: 4_194_304,
            }),
    {
        Limits {
            wall_ms: 120_000,
            memory_bytes: 2 * 1024 * 1024 * 1024,
            max_pids: 64,
            max_output_bytes: 4 * 1024 * 1024,
        }
    }
}

/// What a sandboxed process is permitted to do. An empty policy grants nothing at all.
#[derive(Debug, PartialEq, Eq)]
pub struct SandboxPolicy {
    /// Readable paths.
    pub fs_read: PathScope,
    /// Writable paths.
    pub fs_write: PathScope,
    /// Reachable hosts. Concrete names only.
    pub egress: Vec<HostPattern>,
    /// Executable programs.
    pub programs: ProgramScope,
    /// Resource ceilings.
    pub limits: Limits,
    /// Whether writes should be captured to an overlay so they can be reviewed and reverted.
    pub copy_on_write: bool,
}

impl Default for SandboxPolicy {
    fn default() -> (r: Self)
        ensures
            r.fs_read@.len() == 0,
            r.fs_write@.len() == 0,
            r.egress@.len() == 0,
            r.programs@.len() == 0,
            r.limits == (Limits {
                wall_ms: 120_000,
                memory_bytes: 2_147_483_648,
                max_pids: 64,
                max_output_bytes: 4_194_304,
            }),
            !r.copy_on_write,
    {
        SandboxPolicy {
            fs_read: PathScope::empty(),
            fs_write: PathScope::empty(),
            egress: Vec::new(),
            programs: ProgramScope::default(),
            limits: Limits::default(),
            copy_on_write: false,
        }
    }
}

/// Whether a policy needs a control in order to be honestly enforced.
pub open spec fn policy_needs(policy: SandboxPolicy, c: Control) -> bool {
    match c {
        Control::ProgramAllowlist => policy.programs@.len() > 0,
        Control::CopyOnWrite => policy.copy_on_write,
        Control::CpuLimit => false,
        _ => true,
    }
}

impl SandboxPolicy {
    /// The controls this policy needs in order to be honestly enforced, in order.
    #[must_use]
    pub fn required_controls(&self) -> (r: Vec<Control>)
        ensures
            r@ == chosen(every_control(), |c: Control| policy_needs(*self, c)),
    {
        let ghost needs = |c: Control| policy_needs(*self, c);
        let all = all_controls();
        let mut out: Vec<Control> = Vec::new();
        let mut i: usize = 0;
        while i < all.len()
            invariant
                i <= all@.len(),
                needs == (|c: Control| policy_needs(*self, c)),
                out@ == chosen(all@.take(i as int), needs),
            decreases all@.len() - i,
        {
            let wanted = match all[i] {
                Control::ProgramAllowlist => self.programs.programs().len() > 0,
                Control::CopyOnWrite => self.copy_on_write,
                Control::CpuLimit => false,
                _ => true,
            };
            if wanted {
                out.push(all[i]);
            }
            proof {
                assert(all@.take(i + 1).drop_last() == all@.take(i as int));
            }
            i = i + 1;
        }
        assert(all@.take(all@.len() as int) == all@);
        out
    }
}

/// A program to run under a sandbox: an argument vector, never a command string, and an empty
/// environment.
#[derive(Debug, PartialEq, Eq)]
pub struct ExecSpec {
    /// Program and arguments.
    pub argv: Vec<String>,
    /// Working directory. Must fall inside the policy's write scope.
    pub cwd: String,
    /// Environment variables, by name and value. Empty by default.
    pub env: Vec<(String, String)>,
}

impl ExecSpec {
    /// A program with no environment.
    pub fn new(argv: &[&str], cwd: &str) -> (r: Self)
        ensures
            texts(r.argv@) == Seq::new(argv@.len(), |i: int| argv@[i]@),
            r.cwd@ == cwd@,
            r.env@.len() == 0,
    {
        ExecSpec { argv: own_texts(argv), cwd: cwd.to_owned(), env: Vec::new() }
    }

    /// The program name, which is what the exec allowlist compares against.
    #[must_use]
    pub fn program(&self) -> (r: Option<&str>)
        ensures
            r is None <==> self.argv@.len() == 0,
            r matches Some(p) ==> p@ == self.argv@[0]@,
    {
        if self.argv.len() == 0 {
            None
        } else {
            Some(self.argv[0].as_str())
        }
    }
}

/// Everything that happened inside a sandbox.
#[derive(Debug, PartialEq, Eq)]
pub struct SandboxReport {
    /// Which backend ran it.
    pub backend: BackendId,
    /// What was actually enforced.
    pub enforced: EnforcedSet,
    /// What was asked for and could not be enforced.
    pub degraded: Vec<Degradation>,
    /// What the process did to the filesystem.
    pub fs_effects: Vec<FsEffect>,
    /// Where it tried to connect, allowed and denied alike.
    pub egress_attempts: Vec<EgressAttempt>,
    /// Limits it ran into.
    pub limits_hit: Vec<LimitHit>,
    /// Process exit code, if it exited normally.
    pub exit_code: Option<i32>,
    /// How many bytes of output were withheld.
    pub output_bytes_elided: u64,
}

/// The hosts of the attempts that were denied, in order.
pub open spec fn denied(attempts: Seq<EgressAttempt>) -> Seq<Seq<char>>
    decreases attempts.len(),
{
    if attempts.len() == 0 {
        Seq::empty()
    } else if attempts.last().allowed {
        denied(attempts.drop_last())
    } else {
        denied(attempts.drop_last()).push(attempts.last().host@)
    }
}

impl SandboxReport {
    /// Whether the run was fully confined as requested.
    #[must_use]
    pub fn is_fully_enforced(&self) -> (r: bool)
        ensures
            r == (self.degraded@.len() == 0),
    {
        self.degraded.is_empty()
    }

    /// Hosts the process tried and failed to reach.
    #[must_use]
    pub fn denied_hosts(&self) -> (r: Vec<&str>)
        ensures
            Seq::new(r@.len(), |i: int| r@[i]@) == denied(self.egress_attempts@),
    {
        let mut out: Vec<&str> = Vec::new();
        let ghost mut seen: Seq<Seq<char>> = Seq::empty();
        let mut i: usize = 0;
        assert(seen == denied(self.egress_attempts@.take(0)));
        while i < self.egress_attempts.len()
            invariant
                i <= self.egress_attempts@.len(),
                seen == denied(self.egress_attempts@.take(i as int)),
                out@.len() == seen.len(),
                forall|j: int| 0 <= j < out@.len() ==> (#[trigger] out@[j])@ == seen[j],
            decreases self.egress_attempts@.len() - i,
        {
            proof {
                assert(self.egress_attempts@.take(i + 1).drop_last() == self.egress_attempts@.take(
                    i as int,
                ));
            }
            if !self.egress_attempts[i].allowed {
                out.push(self.egress_attempts[i].host.as_str());
                proof {
                    seen = seen.push(self.egress_attempts@[i as int].host@);
                }
            }
            i = i + 1;
        }
        proof {
            assert(self.egress_attempts@.take(self.egress_attempts@.len() as int)
                == self.egress_attempts@);
            assert(Seq::new(out@.len(), |i: int| out@[i]@) == seen);
        }
        out
    }
}

/// What a backend can enforce on this host, discovered at runtime.
#[derive(Debug, PartialEq, Eq)]
pub struct Availability {
    /// Whether the backend can run here at all.
    pub usable: bool,
    /// What it can enforce here.
    pub controls: EnforcedSet,
    /// A human-readable description.
    pub detail: String,
}

impl Availability {
    /// A backend that cannot run here.
    pub fn unusable(detail: &str) -> (r: Self)
        ensures
            !r.usable,
            r.controls@.len() == 0,
            r.detail@ == detail@,
    {
        Availability { usable: false, controls: EnforcedSet::default(), detail: detail.to_owned() }
    }
}

/// A sandbox could not be created.
#[derive(Debug, PartialEq, Eq)]
#[non_exhaustive]
pub enum SandboxError {
    /// No backend on this host can enforce the requested policy. The run fails closed.
    CannotEnforce {
        /// Which controls are unavailable.
        missing: Vec<Control>,
        /// What was probed.
        detail: String,
    },
    /// The policy itself was invalid, for example a working directory outside the write scope.
    InvalidPolicy(String),
    /// The process could not be started.
    SpawnFailed {
        /// Which program.
        program: String,
        /// Why.
        detail: String,
    },
    /// The run was cancelled.
    Cancelled,
}

impl SandboxError {
    /// The error as one sentence.
    #[must_use]
    pub fn to_string(&self) -> (r: String)
        ensures
            r@ == (match *self {
                SandboxError::CannotEnforce { missing, detail } => "cannot enforce "@
                    + control_list_text(missing@) + " on this host ("@ + detail@
                    + "); refusing to run unconfined. Set security.allow_degraded_sandbox to accept reduced confinement deliberately."@,
                SandboxError::InvalidPolicy(p) => "invalid sandbox policy: "@ + p@,
                SandboxError::SpawnFailed { program, detail } => "could not start `"@ + program@
                    + "`: "@ + detail@,
                SandboxError::Cancelled => "cancelled"@,
            }),
    {
        match self {
            SandboxError::CannotEnforce { missing, detail } => {
                let mut s = "cannot enforce ".to_owned();
                s.push_str(control_list(missing.as_slice()).as_str());
                s.push_str(" on this host (");
                s.push_str(detail.as_str());
                s.push_str(
                    "); refusing to run unconfined. Set security.allow_degraded_sandbox to accept reduced confinement deliberately.",
                );
                s
            },
            SandboxError::InvalidPolicy(p) => {
                let mut s = "invalid sandbox policy: ".to_owned();
                s.push_str(p.as_str());
                s
            },
            SandboxError::SpawnFailed { program, detail } => {
                let mut s = "could not start `".to_owned();
                s.push_str(program.as_str());
                s.push_str("`: ");
                s.push_str(detail.as_str());
                s
            },
            SandboxError::Cancelled => "cancelled".to_owned(),
        }
    }
}

/// A finished sandboxed run.
#[derive(Debug, PartialEq, Eq)]
pub struct Sandboxed {
    /// Captured standard output, truncated to the policy's limit.
    pub stdout: Vec<u8>,
    /// Captured standard error, truncated to the policy's limit.
    pub stderr: Vec<u8>,
    /// The record of the run.
    pub report: SandboxReport,
}

/// Which controls a policy cannot do without: where it names programs, the list of them; where it
/// copies on write, that; processor time never; and every other control always.
pub proof fn a_policy_needs_what_it_names(policy: SandboxPolicy, c: Control)
    ensures
        c == Control::ProgramAllowlist ==> (policy_needs(policy, c) <==> policy.programs@.len() > 0),
        c == Control::CopyOnWrite ==> (policy_needs(policy, c) <==> policy.copy_on_write),
        c == Control::CpuLimit ==> !policy_needs(policy, c),
        c == Control::FilesystemRead || c == Control::FilesystemWrite || c == Control::NetworkEgress
            || c == Control::MemoryLimit || c == Control::ProcessLimit || c
            == Control::WallClockLimit ==> policy_needs(policy, c),
{
}

/// The hosts that were denied are those of the attempts that were not allowed, in their order.
pub proof fn denials_are_told_in_order(
    a: Seq<EgressAttempt>,
    b: Seq<EgressAttempt>,
    attempt: EgressAttempt,
)
    ensures
        denied(a + b) == denied(a) + denied(b),
        !attempt.allowed ==> denied(seq![attempt]) == seq![attempt.host@],
        attempt.allowed ==> denied(seq![attempt]) == Seq::<Seq<char>>::empty(),
    decreases b.len(),
{
    reveal_with_fuel(denied, 2);
    assert(seq![attempt].drop_last() == Seq::<EgressAttempt>::empty());
    if b.len() == 0 {
        assert(a + b == a);
    } else {
        denials_are_told_in_order(a, b.drop_last(), attempt);
        assert((a + b).drop_last() == a + b.drop_last());
        assert((a + b).last() == b.last());
    }
}

/// A list of controls names every control in it, and no two controls have the same name.
pub proof fn every_control_is_named(controls: Seq<Control>, i: int, a: Control, b: Control)
    ensures
        0 <= i < controls.len() ==> mentions(control_list_text(controls), control_name(controls[i])),
        a != b ==> control_name(a) != control_name(b),
{
    broadcast use group_mentions;

    control_names_differ();
    let names = Seq::new(controls.len(), |i: int| control_name(controls[i]));
    if 0 <= i < controls.len() {
        joining_keeps_every_part(names, ", "@, i, names[i]);
    }
}

proof fn control_names_differ()
    ensures
        "FilesystemRead"@ != "FilesystemWrite"@,
        "FilesystemRead"@ != "NetworkEgress"@,
        "FilesystemRead"@ != "ProgramAllowlist"@,
        "FilesystemRead"@ != "MemoryLimit"@,
        "FilesystemRead"@ != "CpuLimit"@,
        "FilesystemRead"@ != "ProcessLimit"@,
        "FilesystemRead"@ != "WallClockLimit"@,
        "FilesystemRead"@ != "CopyOnWrite"@,
        "FilesystemWrite"@ != "NetworkEgress"@,
        "FilesystemWrite"@ != "ProgramAllowlist"@,
        "FilesystemWrite"@ != "MemoryLimit"@,
        "FilesystemWrite"@ != "CpuLimit"@,
        "FilesystemWrite"@ != "ProcessLimit"@,
        "FilesystemWrite"@ != "WallClockLimit"@,
        "FilesystemWrite"@ != "CopyOnWrite"@,
        "NetworkEgress"@ != "ProgramAllowlist"@,
        "NetworkEgress"@ != "MemoryLimit"@,
        "NetworkEgress"@ != "CpuLimit"@,
        "NetworkEgress"@ != "ProcessLimit"@,
        "NetworkEgress"@ != "WallClockLimit"@,
        "NetworkEgress"@ != "CopyOnWrite"@,
        "ProgramAllowlist"@ != "MemoryLimit"@,
        "ProgramAllowlist"@ != "CpuLimit"@,
        "ProgramAllowlist"@ != "ProcessLimit"@,
        "ProgramAllowlist"@ != "WallClockLimit"@,
        "ProgramAllowlist"@ != "CopyOnWrite"@,
        "MemoryLimit"@ != "CpuLimit"@,
        "MemoryLimit"@ != "ProcessLimit"@,
        "MemoryLimit"@ != "WallClockLimit"@,
        "MemoryLimit"@ != "CopyOnWrite"@,
        "CpuLimit"@ != "ProcessLimit"@,
        "CpuLimit"@ != "WallClockLimit"@,
        "CpuLimit"@ != "CopyOnWrite"@,
        "ProcessLimit"@ != "WallClockLimit"@,
        "ProcessLimit"@ != "CopyOnWrite"@,
        "WallClockLimit"@ != "CopyOnWrite"@,
{
    reveal_strlit("FilesystemRead");
    reveal_strlit("FilesystemWrite");
    reveal_strlit("NetworkEgress");
    reveal_strlit("ProgramAllowlist");
    reveal_strlit("MemoryLimit");
    reveal_strlit("CpuLimit");
    reveal_strlit("ProcessLimit");
    reveal_strlit("WallClockLimit");
    reveal_strlit("CopyOnWrite");
    assert("FilesystemRead"@.len() != "FilesystemWrite"@.len());
    assert("FilesystemRead"@.len() != "NetworkEgress"@.len());
    assert("FilesystemRead"@.len() != "ProgramAllowlist"@.len());
    assert("FilesystemRead"@.len() != "MemoryLimit"@.len());
    assert("FilesystemRead"@.len() != "CpuLimit"@.len());
    assert("FilesystemRead"@.len() != "ProcessLimit"@.len());
    assert("FilesystemRead"@[0] != "WallClockLimit"@[0]);
    assert("FilesystemRead"@.len() != "CopyOnWrite"@.len());
    assert("FilesystemWrite"@.len() != "NetworkEgress"@.len());
    assert("FilesystemWrite"@.len() != "ProgramAllowlist"@.len());
    assert("FilesystemWrite"@.len() != "MemoryLimit"@.len());
    assert("FilesystemWrite"@.len() != "CpuLimit"@.len());
    assert("FilesystemWrite"@.len() != "ProcessLimit"@.len());
    assert("FilesystemWrite"@.len() != "WallClockLimit"@.len());
    assert("FilesystemWrite"@.len() != "CopyOnWrite"@.len());
    assert("NetworkEgress"@.len() != "ProgramAllowlist"@.len());
    assert("NetworkEgress"@.len() != "MemoryLimit"@.len());
    assert("NetworkEgress"@.len() != "CpuLimit"@.len());
    assert("NetworkEgress"@.len() != "ProcessLimit"@.len());
    assert("NetworkEgress"@.len() != "WallClockLimit"@.len());
    assert("NetworkEgress"@.len() != "CopyOnWrite"@.len());
    assert("ProgramAllowlist"@.len() != "MemoryLimit"@.len());
    assert("ProgramAllowlist"@.len() != "CpuLimit"@.len());
    assert("ProgramAllowlist"@.len() != "ProcessLimit"@.len());
    assert("ProgramAllowlist"@.len() != "WallClockLimit"@.len());
    assert("ProgramAllowlist"@.len() != "CopyOnWrite"@.len());
    assert("MemoryLimit"@.len() != "CpuLimit"@.len());
    assert("MemoryLimit"@.len() != "ProcessLimit"@.len());
    assert("MemoryLimit"@.len() != "WallClockLimit"@.len());
    assert("MemoryLimit"@[0] != "CopyOnWrite"@[0]);
    assert("CpuLimit"@.len() != "ProcessLimit"@.len());
    assert("CpuLimit"@.len() != "WallClockLimit"@.len());
    assert("CpuLimit"@.len() != "CopyOnWrite"@.len());
    assert("ProcessLimit"@.len() != "WallClockLimit"@.len());
    assert("ProcessLimit"@.len() != "CopyOnWrite"@.len());
    assert("WallClockLimit"@.len() != "CopyOnWrite"@.len());
}

/// Controls are chosen in their order, each exactly where it is wanted.
pub proof fn controls_are_chosen_in_order(
    a: Seq<Control>,
    b: Seq<Control>,
    one: Control,
    wanted: spec_fn(Control) -> bool,
)
    ensures
        chosen(a + b, wanted) == chosen(a, wanted) + chosen(b, wanted),
        wanted(one) ==> chosen(seq![one], wanted) == seq![one],
        !wanted(one) ==> chosen(seq![one], wanted).len() == 0,
    decreases b.len(),
{
    reveal_with_fuel(chosen, 2);
    assert(seq![one].drop_last() == Seq::<Control>::empty());
    if b.len() == 0 {
        assert(a + b == a);
    } else {
        controls_are_chosen_in_order(a, b.drop_last(), one, wanted);
        assert((a + b).drop_last() == a + b.drop_last());
        assert((a + b).last() == b.last());
    }
}

} // verus!
