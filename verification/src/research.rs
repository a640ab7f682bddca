//! Immutable, resumable experiment definitions and their ledger.
//!
//! The experiment runner records exact commands as provenance and never executes
//! them; this module holds the definitions it reads and the integrity rules they obey.

use std::collections::BTreeMap;

use vstd::prelude::*;

use crate::canonical::owned;
use crate::digest::Sha256Digest;
use crate::error::CoreError;
use crate::manifest::{segment_begins, segment_stops};
use crate::text::{chars_equal_at, chars_of};

verus! {

/// Version tag of an experiment definition.
pub const SPEC_VERSION: &'static str = "ferrodoc-experiment-spec/1";

/// Version tag of an experiment ledger.
pub const LEDGER_VERSION: &'static str = "ferrodoc-experiment-ledger/1";

/// File that must remain byte-identical throughout an evaluation run.
#[derive(Debug, Clone, PartialEq, Eq)]
pub struct ProtectedArtifact {
    /// Path relative to the experiment root.
    pub path: String,
    /// Expected content digest.
    pub digest: Sha256Digest,
    /// What the file is for, such as `benchmark_truth`.
    pub role: String,
}

/// Explicit finite admission budget.
#[derive(Debug, Clone, PartialEq, Eq)]
pub struct ExperimentBudget {
    /// Most evaluations ever admitted.
    pub maximum_evaluations: u32,
    /// Most runner wall time, in milliseconds, over all runs.
    pub maximum_runner_wall_ms: u64,
}

/// Exact command and selected environment facts recorded by the producer.
#[derive(Debug, Clone, PartialEq, Eq)]
pub struct CommandProvenance {
    /// The exact argument vector.
    pub argv: Vec<String>,
    /// Selected environment variables.
    pub environment: BTreeMap<String, String>,
    /// Digest of the working tree the command ran in.
    pub working_directory_digest: Sha256Digest,
}

/// One trial: mutations are recorded but never executed by the evaluation runner.
#[derive(Debug, Clone, PartialEq, Eq)]
pub enum TrialSpec {
    /// A change to code or models, recorded as provenance.
    Mutation {
        /// Trial identifier.
        id: String,
        /// The command that produced the mutation.
        command: CommandProvenance,
        /// Digest of what the mutation produced, when known.
        output_digest: Option<Sha256Digest>,
    },
    /// An already-produced benchmark report to admit.
    Evaluation {
        /// Trial identifier.
        id: String,
        /// The command that produced the report.
        command: CommandProvenance,
        /// Report path relative to the experiment root.
        raw_report: String,
        /// Expected digest of the report bytes.
        raw_report_digest: Sha256Digest,
    },
}

/// The identifier of a trial.
pub open spec fn trial_id(t: TrialSpec) -> Seq<char> {
    match t {
        TrialSpec::Mutation { id, .. } => id@,
        TrialSpec::Evaluation { id, .. } => id@,
    }
}

/// The recorded command of a trial.
pub open spec fn trial_command(t: TrialSpec) -> CommandProvenance {
    match t {
        TrialSpec::Mutation { command, .. } => command,
        TrialSpec::Evaluation { command, .. } => command,
    }
}

impl TrialSpec {
    /// The trial identifier.
    pub fn id(&self) -> (s: &str)
        ensures
            s@ == trial_id(*self),
    {
        match self {
            TrialSpec::Mutation { id, .. } => id.as_str(),
            TrialSpec::Evaluation { id, .. } => id.as_str(),
        }
    }

    /// The recorded command.
    pub fn command(&self) -> (c: &CommandProvenance)
        ensures
            *c == trial_command(*self),
    {
        match self {
            TrialSpec::Mutation { command, .. } => command,
            TrialSpec::Evaluation { command, .. } => command,
        }
    }
}

/// Immutable experiment definition.
#[derive(Debug, Clone, PartialEq, Eq)]
pub struct ExperimentSpec {
    /// Must be [`SPEC_VERSION`].
    pub spec_version: String,
    /// Experiment identifier.
    pub experiment_id: String,
    /// Digest of the code under test.
    pub code_digest: Sha256Digest,
    /// Digest of the model under test, if any.
    pub model_digest: Option<Sha256Digest>,
    /// Digest of the benchmark corpus.
    pub corpus_digest: Sha256Digest,
    /// Digest of the evaluator.
    pub evaluator_digest: Sha256Digest,
    /// Admission budget.
    pub budget: ExperimentBudget,
    /// Files that must not change while evaluating.
    pub protected: Vec<ProtectedArtifact>,
    /// Trials in definition order.
    pub trials: Vec<TrialSpec>,
}

/// Where a trial stands in the ledger.
#[derive(Debug, Clone, PartialEq, Eq)]
pub enum TrialStatus {
    /// Not yet handled.
    Pending,
    /// A mutation whose provenance was recorded.
    MutationRecorded {
        /// Digest of what the mutation produced, when known.
        output_digest: Option<Sha256Digest>,
    },
    /// An admitted, validated report.
    EvaluationComplete {
        /// Engine the report measured.
        engine_id: String,
        /// Digest of the report bytes.
        report_digest: Sha256Digest,
    },
    /// An admitted report that failed validation.
    Failed {
        /// Why it failed.
        reason: String,
    },
}

/// The ledger entry of one trial.
#[derive(Debug, Clone, PartialEq, Eq)]
pub struct TrialRecord {
    /// Trial identifier.
    pub id: String,
    /// Its status.
    pub status: TrialStatus,
}

/// Resumable state. Raw reports stay external and digest-bound.
#[derive(Debug, Clone, PartialEq, Eq)]
pub struct ExperimentLedger {
    /// Must be [`LEDGER_VERSION`].
    pub ledger_version: String,
    /// Experiment identifier.
    pub experiment_id: String,
    /// Digest of the definition's bytes.
    pub spec_digest: Sha256Digest,
    /// Digest of the code under test.
    pub code_digest: Sha256Digest,
    /// Digest of the model under test, if any.
    pub model_digest: Option<Sha256Digest>,
    /// Digest of the benchmark corpus.
    pub corpus_digest: Sha256Digest,
    /// Digest of the evaluator.
    pub evaluator_digest: Sha256Digest,
    /// One record per trial, in definition order.
    pub trials: Vec<TrialRecord>,
    /// Trial IDs on the retained Pareto frontier. Tradeoffs and unknowns remain.
    pub pareto_frontier: Vec<String>,
    /// Trials whose evaluation completed.
    pub completed_evaluations: u32,
    /// Trials still pending.
    pub pending_evaluations: u32,
    /// Runner wall time spent over all runs, in milliseconds.
    pub runner_wall_ms: u64,
}

/// Why an experiment was refused.
#[derive(Debug, Clone, PartialEq, Eq)]
pub enum ResearchError {
    /// A definition or ledger breaks an integrity rule.
    Integrity(String),
    /// A digest could not be computed or read.
    Core(CoreError),
}

/// The segment beginning at `p` is "..".
pub open spec fn parent_segment_at(s: Seq<char>, p: int) -> bool {
    &&& segment_begins(s, p)
    &&& p + 1 < s.len()
    &&& s[p] == '.'
    &&& s[p + 1] == '.'
    &&& segment_stops(s, p + 2)
}

/// A nonempty path that is not absolute and never steps to a parent directory.
pub open spec fn normalized_relative(s: Seq<char>) -> bool {
    &&& s.len() > 0
    &&& s[0] != '/'
    &&& forall|p: int| 0 <= p < s.len() ==> !#[trigger] parent_segment_at(s, p)
}

/// What a protected artifact breaks, given those before it.
pub open spec fn artifact_fault(ps: Seq<ProtectedArtifact>, i: int) -> Option<Seq<char>> {
    if !normalized_relative(ps[i].path@) {
        Some("experiment artifact path must be normalized and relative"@)
    } else if ps[i].role@.len() == 0 || exists|j: int|
        0 <= j < i && #[trigger] ps[j].path@ == ps[i].path@ {
        Some("protected artifacts need unique paths and nonempty roles"@)
    } else {
        None
    }
}

/// The first fault among the first `n` protected artifacts.
pub open spec fn protected_fault(ps: Seq<ProtectedArtifact>, n: nat) -> Option<Seq<char>>
    decreases n,
{
    if n == 0 {
        None
    } else {
        match protected_fault(ps, (n - 1) as nat) {
            Some(m) => Some(m),
            None => artifact_fault(ps, n - 1),
        }
    }
}

/// Some protected artifact has the given role.
pub open spec fn has_role(ps: Seq<ProtectedArtifact>, role: Seq<char>) -> bool {
    exists|k: int| 0 <= k < ps.len() && #[trigger] ps[k].role@ == role
}

/// An argument vector that is nonempty and has no empty argument.
pub open spec fn argv_exact(argv: Seq<String>) -> bool {
    argv.len() > 0 && forall|k: int| 0 <= k < argv.len() ==> #[trigger] argv[k]@.len() > 0
}

/// What trial `i` breaks, given those before it and the protected artifacts.
pub open spec fn trial_fault(
    ps: Seq<ProtectedArtifact>,
    ts: Seq<TrialSpec>,
    i: int,
) -> Option<Seq<char>> {
    if trial_id(ts[i]).len() == 0 || exists|j: int|
        0 <= j < i && #[trigger] trial_id(ts[j]) == trial_id(ts[i]) {
        Some("trial IDs must be nonempty and unique"@)
    } else if !argv_exact(trial_command(ts[i]).argv@) {
        Some("exact command argv must be nonempty"@)
    } else {
        match ts[i] {
            TrialSpec::Evaluation { raw_report, .. } => if !normalized_relative(raw_report@) {
                Some("experiment artifact path must be normalized and relative"@)
            } else if exists|k: int| 0 <= k < ps.len() && #[trigger] ps[k].path@ == raw_report@ {
                Some("evaluation output cannot alias protected truth or metric code"@)
            } else {
                None
            },
            TrialSpec::Mutation { .. } => None,
        }
    }
}

/// The first fault among the first `n` trials.
pub open spec fn trials_fault(ps: Seq<ProtectedArtifact>, ts: Seq<TrialSpec>, n: nat) -> Option<
    Seq<char>,
>
    decreases n,
{
    if n == 0 {
        None
    } else {
        match trials_fault(ps, ts, (n - 1) as nat) {
            Some(m) => Some(m),
            None => trial_fault(ps, ts, n - 1),
        }
    }
}

/// The message of the first integrity rule an experiment definition breaks, if any.
pub open spec fn experiment_refusal(spec: ExperimentSpec) -> Option<Seq<char>> {
    let ps = spec.protected@;
    if spec.spec_version@ != SPEC_VERSION@ || spec.experiment_id@.len() == 0 {
        Some("unsupported spec version or empty experiment ID"@)
    } else if spec.budget.maximum_evaluations == 0 || spec.budget.maximum_runner_wall_ms == 0 {
        Some("experiment budget must be positive"@)
    } else if ps.len() == 0 {
        Some("truth and evaluator protection list cannot be empty"@)
    } else if protected_fault(ps, ps.len()) is Some {
        protected_fault(ps, ps.len())
    } else if !has_role(ps, "benchmark_truth"@) || !(has_role(ps, "metric_code"@) || has_role(
        ps,
        "evaluator_binary"@,
    )) {
        Some("protected artifacts must include benchmark_truth and metric_code/evaluator_binary"@)
    } else {
        trials_fault(ps, spec.trials@, spec.trials@.len())
    }
}

/// Once the first `i` artifacts hold a fault, every longer prefix holds the same one.
proof fn lemma_protected_fault_sticks(ps: Seq<ProtectedArtifact>, i: nat, n: nat)
    requires
        i <= n,
        protected_fault(ps, i) is Some,
    ensures
        protected_fault(ps, n) == protected_fault(ps, i),
    decreases n - i,
{
    if i < n {
        lemma_protected_fault_sticks(ps, i, (n - 1) as nat);
    }
}

/// Once the first `i` trials hold a fault, every longer prefix holds the same one.
proof fn lemma_trials_fault_sticks(ps: Seq<ProtectedArtifact>, ts: Seq<TrialSpec>, i: nat, n: nat)
    requires
        i <= n,
        trials_fault(ps, ts, i) is Some,
    ensures
        trials_fault(ps, ts, n) == trials_fault(ps, ts, i),
    decreases n - i,
{
    if i < n {
        lemma_trials_fault_sticks(ps, ts, i, (n - 1) as nat);
    }
}

/// A prefix free of faults has no faulty trial.
proof fn lemma_trials_clean(ps: Seq<ProtectedArtifact>, ts: Seq<TrialSpec>, n: nat, i: int)
    requires
        trials_fault(ps, ts, n) is None,
        0 <= i < n,
    ensures
        trial_fault(ps, ts, i) is None,
    decreases n,
{
    if i < n - 1 {
        lemma_trials_clean(ps, ts, (n - 1) as nat, i);
    }
}

/// A prefix free of faults has no faulty protected artifact.
proof fn lemma_protected_clean(ps: Seq<ProtectedArtifact>, n: nat, i: int)
    requires
        protected_fault(ps, n) is None,
        0 <= i < n,
    ensures
        artifact_fault(ps, i) is None,
    decreases n,
{
    if i < n - 1 {
        lemma_protected_clean(ps, (n - 1) as nat, i);
    }
}

/// An accepted experiment protects a benchmark truth and an evaluator, at distinct
/// normalized paths, and no evaluation report it admits is one of those protected files;
/// its trial identifiers are distinct.
pub proof fn lemma_accepted_experiment_protects_truth(spec: ExperimentSpec)
    requires
        experiment_refusal(spec) is None,
    ensures
        has_role(spec.protected@, "benchmark_truth"@),
        has_role(spec.protected@, "metric_code"@) || has_role(spec.protected@, "evaluator_binary"@),
        forall|i: int, j: int|
            0 <= i < j < spec.protected@.len() ==> #[trigger] spec.protected@[i].path@
                != #[trigger] spec.protected@[j].path@,
        forall|i: int| 0 <= i < spec.protected@.len() ==> normalized_relative(
            #[trigger] spec.protected@[i].path@,
        ),
        forall|i: int, j: int|
            0 <= i < j < spec.trials@.len() ==> trial_id(#[trigger] spec.trials@[i]) != trial_id(
                #[trigger] spec.trials@[j],
            ),
        forall|t: int, k: int|
            0 <= t < spec.trials@.len() && 0 <= k < spec.protected@.len() && (
            #[trigger] spec.trials@[t]) is Evaluation ==> spec.trials@[t]->raw_report@
                != (#[trigger] spec.protected@[k]).path@,
{
    let ps = spec.protected@;
    let ts = spec.trials@;
    assert forall|i: int, j: int| 0 <= i < j < ps.len() implies #[trigger] ps[i].path@
        != #[trigger] ps[j].path@ by {
        lemma_protected_clean(ps, ps.len(), j);
    }
    assert forall|i: int| 0 <= i < ps.len() implies normalized_relative(#[trigger] ps[i].path@) by {
        lemma_protected_clean(ps, ps.len(), i);
    }
    assert forall|i: int, j: int| 0 <= i < j < ts.len() implies trial_id(#[trigger] ts[i])
        != trial_id(#[trigger] ts[j]) by {
        lemma_trials_clean(ps, ts, ts.len(), j);
    }
    assert forall|t: int, k: int|
        0 <= t < ts.len() && 0 <= k < ps.len() && (#[trigger] ts[t]) is Evaluation implies ts[t]->raw_report@
            != (#[trigger] ps[k]).path@ by {
        lemma_trials_clean(ps, ts, ts.len(), t);
    }
}

/// True when `s` is normalized and relative.
pub(crate) fn is_normalized_relative(s: &str) -> (r: bool)
    ensures
        r == normalized_relative(s@),
{
    let v = chars_of(s);
    let n = v.len();
    if n == 0 || v[0] == '/' {
        return false;
    }
    let mut p: usize = 0;
    while p < n
        invariant
            n == v@.len(),
            v@ == s@,
            p <= n,
            forall|q: int| 0 <= q < p ==> !#[trigger] parent_segment_at(s@, q),
        decreases n - p,
    {
        let begins = p == 0 || v[p - 1] == '/';
        if begins && p + 1 < n && v[p] == '.' && v[p + 1] == '.' && (p + 2 == n || v[p + 2]
            == '/') {
            assert(parent_segment_at(s@, p as int));
            return false;
        }
        p = p + 1;
    }
    true
}

/// The integrity error carrying `message`.
fn integrity(message: &str) -> (e: ResearchError)
    ensures
        e == ResearchError::Integrity(e->Integrity_0),
        e->Integrity_0@ == message@,
{
    ResearchError::Integrity(owned(message))
}

/// True when `role` is exactly `lit`.
pub(crate) fn role_is(role: &String, lit: &str) -> (r: bool)
    ensures
        r == (role@ == lit@),
{
    let v = chars_of(role.as_str());
    assert(v@.subrange(0, v@.len() as int) == v@);
    chars_equal_at(v.as_slice(), 0, v.len(), lit)
}

/// True when some protected artifact has the role `lit`.
fn any_role(ps: &Vec<ProtectedArtifact>, lit: &str) -> (r: bool)
    ensures
        r == has_role(ps@, lit@),
{
    let mut k: usize = 0;
    while k < ps.len()
        invariant
            k <= ps@.len(),
            forall|j: int| 0 <= j < k ==> #[trigger] ps@[j].role@ != lit@,
        decreases ps@.len() - k,
    {
        if role_is(&ps[k].role, lit) {
            return true;
        }
        k = k + 1;
    }
    false
}

/// True when some protected artifact among the first `n` sits at `path`.
fn path_taken(ps: &Vec<ProtectedArtifact>, n: usize, path: &String) -> (r: bool)
    requires
        n <= ps@.len(),
    ensures
        r == exists|j: int| 0 <= j < n && #[trigger] ps@[j].path@ == path@,
{
    let mut j: usize = 0;
    while j < n
        invariant
            n <= ps@.len(),
            j <= n,
            forall|q: int| 0 <= q < j ==> #[trigger] ps@[q].path@ != path@,
        decreases n - j,
    {
        if ps[j].path == *path {
            return true;
        }
        j = j + 1;
    }
    false
}

/// True when some trial among the first `n` has the identifier `id`.
fn id_taken(ts: &Vec<TrialSpec>, n: usize, id: &str) -> (r: bool)
    requires
        n <= ts@.len(),
    ensures
        r == exists|j: int| 0 <= j < n && #[trigger] trial_id(ts@[j]) == id@,
{
    let mut j: usize = 0;
    while j < n
        invariant
            n <= ts@.len(),
            j <= n,
            forall|q: int| 0 <= q < j ==> #[trigger] trial_id(ts@[q]) != id@,
        decreases n - j,
    {
        let other = ts[j].id();
        let a = chars_of(other);
        assert(a@.subrange(0, a@.len() as int) == a@);
        if chars_equal_at(a.as_slice(), 0, a.len(), id) {
            return true;
        }
        j = j + 1;
    }
    false
}

/// True when the argument vector is nonempty with no empty argument.
fn argv_is_exact(argv: &Vec<String>) -> (r: bool)
    ensures
        r == argv_exact(argv@),
{
    if argv.len() == 0 {
        return false;
    }
    let mut k: usize = 0;
    while k < argv.len()
        invariant
            k <= argv@.len(),
            forall|q: int| 0 <= q < k ==> #[trigger] argv@[q]@.len() > 0,
        decreases argv@.len() - k,
    {
        if argv[k].as_str().is_empty() {
            return false;
        }
        k = k + 1;
    }
    true
}

impl ExperimentSpec {
    /// Checks the integrity rules in order: version and identifier, a positive budget,
    /// a nonempty protection list of normalized unique paths with roles, a truth and an
    /// evaluator artifact, then unique trial IDs, exact commands, and evaluation reports
    /// at normalized paths that are not protected.
    pub fn validate(&self) -> (r: Result<(), ResearchError>)
        ensures
            r is Ok <==> experiment_refusal(*self) is None,
            r is Err ==> r->Err_0 is Integrity && Some(r->Err_0->Integrity_0@)
                == experiment_refusal(*self),
    {
        if !role_is(&self.spec_version, SPEC_VERSION) || self.experiment_id.as_str().is_empty() {
            return Err(integrity("unsupported spec version or empty experiment ID"));
        }
        if self.budget.maximum_evaluations == 0 || self.budget.maximum_runner_wall_ms == 0 {
            return Err(integrity("experiment budget must be positive"));
        }
        let ps = &self.protected;
        if ps.len() == 0 {
            return Err(integrity("truth and evaluator protection list cannot be empty"));
        }
        let mut i: usize = 0;
        while i < ps.len()
            invariant
                ps == &self.protected,
                i <= ps@.len(),
                protected_fault(ps@, i as nat) is None,
                protected_fault(ps@, ps@.len()) is Some ==> experiment_refusal(*self)
                    == protected_fault(ps@, ps@.len()),
            decreases ps@.len() - i,
        {
            if !is_normalized_relative(ps[i].path.as_str()) || ps[i].role.as_str().is_empty()
                || path_taken(ps, i, &ps[i].path) {
                proof {
                    lemma_protected_fault_sticks(ps@, (i + 1) as nat, ps@.len());
                }
                if !is_normalized_relative(ps[i].path.as_str()) {
                    return Err(
                        integrity("experiment artifact path must be normalized and relative"),
                    );
                }
                return Err(integrity("protected artifacts need unique paths and nonempty roles"));
            }
            i = i + 1;
        }
        let has_truth = any_role(ps, "benchmark_truth");
        let has_evaluator = any_role(ps, "metric_code") || any_role(ps, "evaluator_binary");
        if !has_truth || !has_evaluator {
            return Err(
                integrity(
                    "protected artifacts must include benchmark_truth and metric_code/evaluator_binary",
                ),
            );
        }
        let ts = &self.trials;
        let mut t: usize = 0;
        while t < ts.len()
            invariant
                ps == &self.protected,
                ts == &self.trials,
                t <= ts@.len(),
                trials_fault(ps@, ts@, t as nat) is None,
                experiment_refusal(*self) == trials_fault(ps@, ts@, ts@.len()),
            decreases ts@.len() - t,
        {
            let trial = &ts[t];
            let id = trial.id();
            if id.is_empty() || id_taken(ts, t, id) {
                proof {
                    lemma_trials_fault_sticks(ps@, ts@, (t + 1) as nat, ts@.len());
                }
                return Err(integrity("trial IDs must be nonempty and unique"));
            }
            if !argv_is_exact(&trial.command().argv) {
                proof {
                    lemma_trials_fault_sticks(ps@, ts@, (t + 1) as nat, ts@.len());
                }
                return Err(integrity("exact command argv must be nonempty"));
            }
            match trial {
                TrialSpec::Evaluation { raw_report, .. } => {
                    if !is_normalized_relative(raw_report.as_str()) {
                        proof {
                            lemma_trials_fault_sticks(ps@, ts@, (t + 1) as nat, ts@.len());
                        }
                        return Err(
                            integrity("experiment artifact path must be normalized and relative"),
                        );
                    }
                    if path_taken(ps, ps.len(), raw_report) {
                        proof {
                            lemma_trials_fault_sticks(ps@, ts@, (t + 1) as nat, ts@.len());
                        }
                        return Err(
                            integrity(
                                "evaluation output cannot alias protected truth or metric code",
                            ),
                        );
                    }
                },
                TrialSpec::Mutation { .. } => {},
            }
            t = t + 1;
        }
        Ok(())
    }
}

} // verus!

verus! {

/// An existing ledger belongs to the experiment: its version is current and every
/// immutable identity equals the definition's.
pub open spec fn ledger_matches(
    ledger: ExperimentLedger,
    spec: ExperimentSpec,
    spec_digest: Sha256Digest,
) -> bool {
    &&& ledger.ledger_version@ == LEDGER_VERSION@
    &&& ledger.experiment_id@ == spec.experiment_id@
    &&& ledger.spec_digest == spec_digest
    &&& ledger.code_digest == spec.code_digest
    &&& ledger.model_digest == spec.model_digest
    &&& ledger.corpus_digest == spec.corpus_digest
    &&& ledger.evaluator_digest == spec.evaluator_digest
}

/// What the runner does with one trial.
#[derive(Debug, Clone, PartialEq, Eq)]
pub enum TrialStep {
    /// Leave the record as it is.
    Unchanged,
    /// Set the record to this status.
    Record(TrialStatus),
    /// Admit the evaluation: load and validate its report.
    Evaluate,
}

/// The step for a trial whose record has `status`, after `admitted` admissions and
/// `spent_ms` milliseconds of runner time: records that are no longer pending stay as
/// they are; a mutation is recorded, never executed; an evaluation is admitted only
/// while both budgets leave room.
pub open spec fn trial_step(
    trial: TrialSpec,
    status: TrialStatus,
    admitted: u32,
    budget: ExperimentBudget,
    spent_ms: u128,
) -> TrialStep {
    if !(status is Pending) {
        TrialStep::Unchanged
    } else {
        match trial {
            TrialSpec::Mutation { output_digest, .. } => TrialStep::Record(
                TrialStatus::MutationRecorded { output_digest },
            ),
            TrialSpec::Evaluation { .. } => if admitted >= budget.maximum_evaluations || spent_ms
                >= budget.maximum_runner_wall_ms {
                TrialStep::Unchanged
            } else {
                TrialStep::Evaluate
            },
        }
    }
}

/// Decides what to do with one trial.
pub fn next_trial_step(
    trial: &TrialSpec,
    status: &TrialStatus,
    admitted: u32,
    budget: &ExperimentBudget,
    spent_ms: u128,
) -> (s: TrialStep)
    ensures
        s == trial_step(*trial, *status, admitted, *budget, spent_ms),
{
    match status {
        TrialStatus::Pending => {},
        _ => {
            return TrialStep::Unchanged;
        },
    }
    match trial {
        TrialSpec::Mutation { output_digest, .. } => TrialStep::Record(
            TrialStatus::MutationRecorded { output_digest: *output_digest },
        ),
        TrialSpec::Evaluation { .. } => {
            if admitted >= budget.maximum_evaluations || spent_ms
                >= budget.maximum_runner_wall_ms as u128 {
                TrialStep::Unchanged
            } else {
                TrialStep::Evaluate
            }
        },
    }
}

/// A status that consumed an admission: a completed or failed evaluation.
pub open spec fn consumed_admission(s: TrialStatus) -> bool {
    s is EvaluationComplete || s is Failed
}

/// How many of the first `n` records satisfy `pred`.
pub open spec fn count_records(
    records: Seq<TrialRecord>,
    n: nat,
    pred: spec_fn(TrialStatus) -> bool,
) -> nat
    decreases n,
{
    if n == 0 {
        0
    } else {
        count_records(records, (n - 1) as nat, pred) + if pred(records[n - 1].status) {
            1nat
        } else {
            0nat
        }
    }
}

/// Records whose evaluation completed.
pub open spec fn is_complete(s: TrialStatus) -> bool {
    s is EvaluationComplete
}

/// Records still pending.
pub open spec fn is_pending(s: TrialStatus) -> bool {
    s is Pending
}

/// Counting never exceeds the number of records looked at.
proof fn lemma_count_bounded(records: Seq<TrialRecord>, n: nat, pred: spec_fn(TrialStatus) -> bool)
    ensures
        count_records(records, n, pred) <= n,
    decreases n,
{
    if n > 0 {
        lemma_count_bounded(records, (n - 1) as nat, pred);
    }
}

/// The runner never touches a record that is no longer pending, records mutations
/// without executing them, and admits an evaluation only while fewer than the budgeted
/// evaluations were admitted and runner time is left.
pub proof fn lemma_admission_respects_budget(
    trial: TrialSpec,
    status: TrialStatus,
    admitted: u32,
    budget: ExperimentBudget,
    spent_ms: u128,
)
    ensures
        !(status is Pending) ==> trial_step(trial, status, admitted, budget, spent_ms)
            is Unchanged,
        trial_step(trial, status, admitted, budget, spent_ms) is Evaluate ==> {
            &&& trial is Evaluation
            &&& admitted < budget.maximum_evaluations
            &&& spent_ms < budget.maximum_runner_wall_ms
        },
        trial_step(trial, status, admitted, budget, spent_ms) matches TrialStep::Record(s) ==> s
            is MutationRecorded,
{
}

/// Counts the records whose status satisfies one of the ledger's predicates.
fn count_where(records: &Vec<TrialRecord>, which: u8) -> (c: usize)
    requires
        which < 3,
    ensures
        which == 0 ==> c == count_records(records@, records@.len(), |s| consumed_admission(s)),
        which == 1 ==> c == count_records(records@, records@.len(), |s| is_complete(s)),
        which == 2 ==> c == count_records(records@, records@.len(), |s| is_pending(s)),
{
    let ghost pred: spec_fn(TrialStatus) -> bool = if which == 0 {
        |s| consumed_admission(s)
    } else if which == 1 {
        |s| is_complete(s)
    } else {
        |s| is_pending(s)
    };
    let mut c: usize = 0;
    let mut i: usize = 0;
    while i < records.len()
        invariant
            i <= records@.len(),
            which < 3,
            pred == (if which == 0 {
                (|s| consumed_admission(s))
            } else if which == 1 {
                (|s| is_complete(s))
            } else {
                (|s| is_pending(s))
            }),
            c == count_records(records@, i as nat, pred),
            c <= i,
        decreases records@.len() - i,
    {
        let hit = match &records[i].status {
            TrialStatus::Pending => which == 2,
            TrialStatus::MutationRecorded { .. } => false,
            TrialStatus::EvaluationComplete { .. } => which == 0 || which == 1,
            TrialStatus::Failed { .. } => which == 0,
        };
        assert(hit == pred(records@[i as int].status));
        if hit {
            c = c + 1;
        }
        i = i + 1;
    }
    c
}

impl ExperimentLedger {
    /// The ledger a first run starts from: one pending record per trial, in
    /// definition order, an empty frontier, and nothing counted or spent.
    pub fn fresh(spec: &ExperimentSpec, spec_digest: Sha256Digest) -> (l: Self)
        ensures
            ledger_matches(l, *spec, spec_digest),
            l.trials@.len() == spec.trials@.len(),
            forall|i: int|
                0 <= i < l.trials@.len() ==> (#[trigger] l.trials@[i]).id@ == trial_id(
                    spec.trials@[i],
                ) && l.trials@[i].status is Pending,
            l.pareto_frontier@.len() == 0,
            l.completed_evaluations == 0,
            l.pending_evaluations == 0,
            l.runner_wall_ms == 0,
    {
        let mut trials: Vec<TrialRecord> = Vec::new();
        let mut i: usize = 0;
        while i < spec.trials.len()
            invariant
                i <= spec.trials@.len(),
                trials@.len() == i,
                forall|k: int|
                    0 <= k < i ==> (#[trigger] trials@[k]).id@ == trial_id(spec.trials@[k])
                        && trials@[k].status is Pending,
            decreases spec.trials@.len() - i,
        {
            trials.push(TrialRecord { id: owned(spec.trials[i].id()), status: TrialStatus::Pending });
            i = i + 1;
        }
        ExperimentLedger {
            ledger_version: owned(LEDGER_VERSION),
            experiment_id: spec.experiment_id.clone(),
            spec_digest,
            code_digest: spec.code_digest,
            model_digest: spec.model_digest,
            corpus_digest: spec.corpus_digest,
            evaluator_digest: spec.evaluator_digest,
            trials,
            pareto_frontier: Vec::new(),
            completed_evaluations: 0,
            pending_evaluations: 0,
            runner_wall_ms: 0,
        }
    }

    /// Checks that an existing ledger may be resumed for this experiment.
    pub fn check_resumable(&self, spec: &ExperimentSpec, spec_digest: Sha256Digest) -> (r: Result<
        (),
        ResearchError,
    >)
        ensures
            r is Ok <==> ledger_matches(*self, *spec, spec_digest),
            r is Err ==> r->Err_0 == ResearchError::Integrity(r->Err_0->Integrity_0)
                && r->Err_0->Integrity_0@
                == "existing ledger does not match immutable experiment identities"@,
    {
        if !role_is(&self.ledger_version, LEDGER_VERSION) || !(self.experiment_id
            == spec.experiment_id) || !self.spec_digest.same_as(&spec_digest)
            || !self.code_digest.same_as(&spec.code_digest) || !same_model(
            &self.model_digest,
            &spec.model_digest,
        ) || !self.corpus_digest.same_as(&spec.corpus_digest) || !self.evaluator_digest.same_as(
            &spec.evaluator_digest,
        ) {
            return Err(integrity("existing ledger does not match immutable experiment identities"));
        }
        Ok(())
    }

    /// Position of the first record with identifier `id`; a definition whose trial has
    /// no record means the ledger's trial set changed.
    pub fn record_position(&self, id: &str) -> (r: Result<usize, ResearchError>)
        ensures
            r matches Ok(p) ==> p < self.trials@.len() && self.trials@[p as int].id@ == id@
                && forall|q: int| 0 <= q < p ==> (#[trigger] self.trials@[q]).id@ != id@,
            r is Err <==> forall|q: int|
                0 <= q < self.trials@.len() ==> (#[trigger] self.trials@[q]).id@ != id@,
            r is Err ==> r->Err_0 == ResearchError::Integrity(r->Err_0->Integrity_0)
                && r->Err_0->Integrity_0@ == "ledger trial set changed"@,
    {
        let mut p: usize = 0;
        while p < self.trials.len()
            invariant
                p <= self.trials@.len(),
                forall|q: int| 0 <= q < p ==> (#[trigger] self.trials@[q]).id@ != id@,
            decreases self.trials@.len() - p,
        {
            if role_is(&self.trials[p].id, id) {
                return Ok(p);
            }
            p = p + 1;
        }
        Err(integrity("ledger trial set changed"))
    }

    /// Admissions already used: evaluations that completed or failed.
    pub fn admitted(&self) -> (n: usize)
        ensures
            n == count_records(self.trials@, self.trials@.len(), |s| consumed_admission(s)),
    {
        count_where(&self.trials, 0)
    }

    /// Closes a run: counts completed and pending records and adds this run's wall time,
    /// at most `u64::MAX`, to what earlier runs spent, saturating.
    pub fn settle(&mut self, prior_runner_wall_ms: u64, elapsed_ms: u128)
        ensures
            final(self).trials == old(self).trials,
            final(self).completed_evaluations == count_records(
                old(self).trials@,
                old(self).trials@.len(),
                |s| is_complete(s),
            ) as u32,
            final(self).pending_evaluations == count_records(
                old(self).trials@,
                old(self).trials@.len(),
                |s| is_pending(s),
            ) as u32,
            final(self).runner_wall_ms == (if prior_runner_wall_ms + (if elapsed_ms > u64::MAX {
                u64::MAX as int
            } else {
                elapsed_ms as int
            }) > u64::MAX {
                u64::MAX as int
            } else {
                prior_runner_wall_ms + (if elapsed_ms > u64::MAX {
                    u64::MAX as int
                } else {
                    elapsed_ms as int
                })
            }),
            final(self).pareto_frontier == old(self).pareto_frontier,
            final(self).experiment_id == old(self).experiment_id,
            final(self).ledger_version == old(self).ledger_version,
            final(self).spec_digest == old(self).spec_digest,
    {
        let completed = count_where(&self.trials, 1);
        let pending = count_where(&self.trials, 2);
        self.completed_evaluations = completed as u32;
        self.pending_evaluations = pending as u32;
        let this_run: u64 = if elapsed_ms > u64::MAX as u128 {
            u64::MAX
        } else {
            elapsed_ms as u64
        };
        self.runner_wall_ms = prior_runner_wall_ms.saturating_add(this_run);
    }
}

/// True when both optional digests are absent or hold the same bytes.
fn same_model(a: &Option<Sha256Digest>, b: &Option<Sha256Digest>) -> (r: bool)
    ensures
        r == (*a == *b),
{
    match (a, b) {
        (Some(x), Some(y)) => x.same_as(y),
        (None, None) => true,
        _ => false,
    }
}

} // verus!
