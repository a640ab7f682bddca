//! Structured plugin readiness diagnostics.
//!
//! The host asks the engine for its health and optionally runs a minimal inference;
//! the report records what those answers mean, stage by stage.

use vstd::prelude::*;

use crate::canonical::{owned, push_str};
use crate::engine::{EngineError, EngineErrorCategory, HealthReport, HealthStatus};

verus! {

/// Diagnostic stage, kept separate so callers can distinguish failure classes.
#[derive(Debug, Clone, Copy, PartialEq, Eq, Structural)]
pub enum DoctorStage {
    /// Executable or embedded implementation discovery.
    Discovery,
    /// Non-model runtime dependency readiness.
    Dependency,
    /// Model readiness.
    Model,
    /// Engine-level health.
    Health,
    /// Optional minimal semantic execution.
    Inference,
}

/// Outcome of one diagnostic stage.
#[derive(Debug, Clone, Copy, PartialEq, Eq, Structural)]
pub enum DoctorStatus {
    /// Stage completed successfully.
    Passed,
    /// Stage completed with a categorized failure.
    Failed,
    /// Stage was not requested or could not safely run.
    Skipped,
}

/// One structured plugin diagnostic.
#[derive(Debug, Clone, PartialEq, Eq)]
pub struct DoctorCheck {
    /// Engine or attempted plugin identity.
    pub engine_id: String,
    /// Diagnostic class.
    pub stage: DoctorStage,
    /// Outcome.
    pub status: DoctorStatus,
    /// Redacted explanation.
    pub message: String,
}

/// A check as its engine, stage, status and message text.
pub open spec fn check_view(c: DoctorCheck) -> (Seq<char>, DoctorStage, DoctorStatus, Seq<char>) {
    (c.engine_id@, c.stage, c.status, c.message@)
}

/// Checks as their views.
pub open spec fn checks_view(cs: Seq<DoctorCheck>) -> Seq<(Seq<char>, DoctorStage, DoctorStatus, Seq<char>)> {
    Seq::new(cs.len(), |i: int| check_view(cs[i]))
}

/// Ordered plugin-doctor output.
#[derive(Debug, Clone, PartialEq, Eq)]
pub struct DoctorReport {
    /// Individual checks.
    pub checks: Vec<DoctorCheck>,
}

impl Default for DoctorReport {
    fn default() -> (r: Self)
        ensures
            r.checks@.len() == 0,
    {
        DoctorReport { checks: Vec::new() }
    }
}

/// A health status as a diagnostic outcome: only healthy passes.
pub open spec fn status_of(s: HealthStatus) -> DoctorStatus {
    match s {
        HealthStatus::Healthy => DoctorStatus::Passed,
        _ => DoctorStatus::Failed,
    }
}

/// The stage an engine error belongs to.
pub open spec fn stage_of(c: EngineErrorCategory) -> DoctorStage {
    match c {
        EngineErrorCategory::Dependency => DoctorStage::Dependency,
        EngineErrorCategory::Model => DoctorStage::Model,
        _ => DoctorStage::Health,
    }
}

/// The text contains "model".
pub open spec fn mentions_model(s: Seq<char>) -> bool {
    exists|i: int| 0 <= i && i + 5 <= s.len() && #[trigger] s.subrange(i, i + 5) == "model"@
}

/// The checks a health answer yields: one per dependency (model or dependency stage,
/// "id: message"), then the overall health; or one failure in the error's stage.
pub open spec fn health_checks(engine: Seq<char>, health: Result<HealthReport, EngineError>) -> Seq<
    (Seq<char>, DoctorStage, DoctorStatus, Seq<char>),
> {
    match health {
        Ok(h) => Seq::new(
            h.dependencies@.len(),
            |i: int|
                (
                    engine,
                    if mentions_model(h.dependencies@[i].id@) {
                        DoctorStage::Model
                    } else {
                        DoctorStage::Dependency
                    },
                    status_of(h.dependencies@[i].status),
                    h.dependencies@[i].id@ + ": "@ + h.dependencies@[i].message@,
                ),
        ).push((engine, DoctorStage::Health, status_of(h.status), h.message@)),
        Err(e) => seq![(engine, stage_of(e.category), DoctorStatus::Failed, e.message@)],
    }
}

/// The inference check: skipped when no probe ran, else passed or failed with the
/// engine's message.
pub open spec fn inference_check(engine: Seq<char>, inference: Option<Result<(), EngineError>>) -> (
    Seq<char>,
    DoctorStage,
    DoctorStatus,
    Seq<char>,
) {
    match inference {
        None => (
            engine,
            DoctorStage::Inference,
            DoctorStatus::Skipped,
            "inference probe was not requested or unavailable for this plugin"@,
        ),
        Some(Ok(())) => (
            engine,
            DoctorStage::Inference,
            DoctorStatus::Passed,
            "minimal semantic inference succeeded"@,
        ),
        Some(Err(e)) => (engine, DoctorStage::Inference, DoctorStatus::Failed, e.message@),
    }
}

/// True when `s` contains "model".
fn contains_model(s: &str) -> (r: bool)
    ensures
        r == mentions_model(s@),
{
    let v = crate::text::chars_of(s);
    let n = v.len();
    if n < 5 {
        assert forall|i: int| 0 <= i && i + 5 <= s@.len() implies #[trigger] s@.subrange(i, i + 5)
            != "model"@ by {
        }
        return false;
    }
    let mut i: usize = 0;
    while i <= n - 5
        invariant
            n == v@.len(),
            v@ == s@,
            n >= 5,
            i <= n - 4,
            forall|k: int| 0 <= k < i ==> #[trigger] s@.subrange(k, k + 5) != "model"@,
        decreases n - i,
    {
        if crate::text::chars_equal_at(v.as_slice(), i, i + 5, "model") {
            return true;
        }
        i = i + 1;
    }
    assert forall|k: int| 0 <= k && k + 5 <= s@.len() implies #[trigger] s@.subrange(k, k + 5)
        != "model"@ by {
        assert(k < i);
    }
    false
}

/// Maps a health status to a diagnostic outcome.
fn health_status(status: HealthStatus) -> (r: DoctorStatus)
    ensures
        r == status_of(status),
{
    match status {
        HealthStatus::Healthy => DoctorStatus::Passed,
        HealthStatus::Degraded | HealthStatus::Unavailable => DoctorStatus::Failed,
    }
}

/// Maps an engine error category to the stage it belongs to.
fn error_stage(category: EngineErrorCategory) -> (r: DoctorStage)
    ensures
        r == stage_of(category),
{
    match category {
        EngineErrorCategory::Dependency => DoctorStage::Dependency,
        EngineErrorCategory::Model => DoctorStage::Model,
        _ => DoctorStage::Health,
    }
}

impl DoctorReport {
    /// Records discovery failure before an engine instance exists.
    pub fn discovery_failure(&mut self, identity: &str, message: &str)
        ensures
            checks_view(final(self).checks@) == checks_view(old(self).checks@).push(
                (identity@, DoctorStage::Discovery, DoctorStatus::Failed, message@),
            ),
    {
        let ghost before = self.checks@;
        self.checks.push(
            DoctorCheck {
                engine_id: owned(identity),
                stage: DoctorStage::Discovery,
                status: DoctorStatus::Failed,
                message: owned(message),
            },
        );
        assert(checks_view(self.checks@) =~= checks_view(before).push(
            (identity@, DoctorStage::Discovery, DoctorStatus::Failed, message@),
        ));
    }

    /// Appends the checks for one engine: its discovery, what its health answer means,
    /// and the outcome of the optional inference probe.
    pub fn record_engine(
        &mut self,
        engine_id: &str,
        health: Result<HealthReport, EngineError>,
        inference: Option<Result<(), EngineError>>,
    )
        ensures
            checks_view(final(self).checks@) == checks_view(old(self).checks@).push(
                (engine_id@, DoctorStage::Discovery, DoctorStatus::Passed, "engine descriptor is available"@),
            ) + health_checks(engine_id@, health) + seq![inference_check(engine_id@, inference)],
    {
        let ghost start = checks_view(self.checks@);
        self.checks.push(
            DoctorCheck {
                engine_id: owned(engine_id),
                stage: DoctorStage::Discovery,
                status: DoctorStatus::Passed,
                message: owned("engine descriptor is available"),
            },
        );
        let ghost base = start.push(
            (engine_id@, DoctorStage::Discovery, DoctorStatus::Passed, "engine descriptor is available"@),
        );
        assert(checks_view(self.checks@) =~= base);
        let ghost hc = health_checks(engine_id@, health);
        match health {
            Ok(h) => {
                let n0 = self.checks.len();
                let mut i: usize = 0;
                while i < h.dependencies.len()
                    invariant
                        i <= h.dependencies@.len(),
                        n0 == base.len(),
                        self.checks@.len() == n0 + i,
                        checks_view(self.checks@) =~= base + hc.take(i as int),
                        hc == health_checks(engine_id@, Ok(h)),
                    decreases h.dependencies@.len() - i,
                {
                    let d = &h.dependencies[i];
                    let stage = if contains_model(d.id.as_str()) {
                        DoctorStage::Model
                    } else {
                        DoctorStage::Dependency
                    };
                    let mut message = d.id.clone();
                    push_str(&mut message, ": ");
                    push_str(&mut message, d.message.as_str());
                    let ghost prev = self.checks@;
                    self.checks.push(
                        DoctorCheck {
                            engine_id: owned(engine_id),
                            stage,
                            status: health_status(d.status),
                            message,
                        },
                    );
                    assert(hc.take(i + 1) =~= hc.take(i as int).push(hc[i as int]));
                    assert(checks_view(self.checks@) =~= checks_view(prev).push(hc[i as int]));
                    i = i + 1;
                }
                let ghost prev = self.checks@;
                self.checks.push(
                    DoctorCheck {
                        engine_id: owned(engine_id),
                        stage: DoctorStage::Health,
                        status: health_status(h.status),
                        message: h.message,
                    },
                );
                assert(hc =~= hc.take(h.dependencies@.len() as int).push(hc[h.dependencies@.len() as int]));
                assert(checks_view(self.checks@) =~= checks_view(prev).push(hc[h.dependencies@.len() as int]));
            },
            Err(e) => {
                let ghost prev = self.checks@;
                self.checks.push(
                    DoctorCheck {
                        engine_id: owned(engine_id),
                        stage: error_stage(e.category),
                        status: DoctorStatus::Failed,
                        message: e.message,
                    },
                );
                assert(checks_view(self.checks@) =~= checks_view(prev).push(hc[0]));
            },
        }
        assert(checks_view(self.checks@) =~= base + hc);
        let ghost prev = self.checks@;
        let check = match inference {
            None => DoctorCheck {
                engine_id: owned(engine_id),
                stage: DoctorStage::Inference,
                status: DoctorStatus::Skipped,
                message: owned("inference probe was not requested or unavailable for this plugin"),
            },
            Some(Ok(())) => DoctorCheck {
                engine_id: owned(engine_id),
                stage: DoctorStage::Inference,
                status: DoctorStatus::Passed,
                message: owned("minimal semantic inference succeeded"),
            },
            Some(Err(e)) => DoctorCheck {
                engine_id: owned(engine_id),
                stage: DoctorStage::Inference,
                status: DoctorStatus::Failed,
                message: e.message,
            },
        };
        self.checks.push(check);
        assert(checks_view(self.checks@) =~= checks_view(prev).push(inference_check(engine_id@, inference)));
    }
}

/// Whatever an engine answers, its checks keep health, model and inference failures in
/// separate stages: a failed inference is never reported as a health failure, and a
/// health answer yields exactly one overall health or error check.
pub proof fn lemma_report_separates_stages(
    engine: Seq<char>,
    health: Result<HealthReport, EngineError>,
    inference: Option<Result<(), EngineError>>,
)
    ensures
        inference_check(engine, inference).1 == DoctorStage::Inference,
        health is Ok ==> health_checks(engine, health).last().1 == DoctorStage::Health,
        health is Err ==> health_checks(engine, health).len() == 1,
        forall|i: int|
            0 <= i < health_checks(engine, health).len() ==> (#[trigger] health_checks(engine, health)[i]).1
                != DoctorStage::Inference,
{
}

} // verus!
