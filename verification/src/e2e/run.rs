//! The course of a suite: indexes, cleanup, data, cases, cleanup, report.

use vstd::prelude::*;
use crate::cypher::CypherQuery;
use crate::cypher::CypherQueryModel;
use crate::cypher;
use crate::e2e::suite::IndexPlan;
use crate::e2e::suite::IndexPlanModel;
use crate::e2e::suite;
use crate::e2e::types::E2eCaseReport;
use crate::e2e::types::E2eCaseReportModel;
use crate::e2e::types::SuiteSettings;
use crate::e2e::types::SuiteSettingsModel;
use crate::seqs::Copied;
use crate::seqs;

verus! {

broadcast use vstd::string::group_string_axioms;

/// How far a suite has come.
#[derive(Debug, PartialEq)]
pub struct SuiteProgress {
    /// Index statements that were run.
    pub indexes: usize,
    /// Is what an earlier run left behind removed?
    pub cleaned: bool,
    /// Is the graph loaded?
    pub ingested: bool,
    /// The reports of the cases that were run, in their order.
    pub cases: Vec<E2eCaseReport>,
    /// Is what this run loaded removed?
    pub swept: bool,
}

pub struct SuiteProgressModel {
    pub indexes: nat,
    pub cleaned: bool,
    pub ingested: bool,
    pub cases: Seq<E2eCaseReportModel>,
    pub swept: bool,
}

impl DeepView for SuiteProgress {
    type V = SuiteProgressModel;

    open spec fn deep_view(&self) -> SuiteProgressModel {
        SuiteProgressModel {
            indexes: self.indexes as nat,
            cleaned: self.cleaned,
            ingested: self.ingested,
            cases: self.cases.deep_view(),
            swept: self.swept,
        }
    }
}

/// Nothing is done yet.
pub open spec fn nothing_done() -> SuiteProgressModel {
    SuiteProgressModel {
        indexes: 0,
        cleaned: false,
        ingested: false,
        cases: Seq::empty(),
        swept: false,
    }
}

impl Default for SuiteProgress {
    fn default() -> (r: SuiteProgress)
        ensures
            r.deep_view() == nothing_done(),
    {
        SuiteProgress {
            indexes: 0,
            cleaned: false,
            ingested: false,
            cases: seqs::no_items(),
            swept: false,
        }
    }
}

/// What a suite does next.
#[derive(Debug, PartialEq)]
pub enum SuiteStep {
    /// Run an index statement. It may fail: the index may be there.
    MakeIndex(CypherQuery),
    /// Remove some of what stands under the prefix.
    Clean(CypherQuery),
    /// Load the graph.
    Ingest,
    /// Run the case at a place.
    RunCase(usize),
    /// Write the report.
    Finish,
    /// Give up.
    Fail(String),
}

pub enum SuiteStepModel {
    MakeIndex(CypherQueryModel),
    Clean(CypherQueryModel),
    Ingest,
    RunCase(nat),
    Finish,
    Fail(Seq<char>),
}

impl DeepView for SuiteStep {
    type V = SuiteStepModel;

    open spec fn deep_view(&self) -> SuiteStepModel {
        match self {
            SuiteStep::MakeIndex(q) => SuiteStepModel::MakeIndex(q.deep_view()),
            SuiteStep::Clean(q) => SuiteStepModel::Clean(q.deep_view()),
            SuiteStep::Ingest => SuiteStepModel::Ingest,
            SuiteStep::RunCase(i) => SuiteStepModel::RunCase(*i as nat),
            SuiteStep::Finish => SuiteStepModel::Finish,
            SuiteStep::Fail(e) => SuiteStepModel::Fail(e@),
        }
    }
}

/// The cleanup of a suite.
pub open spec fn cleanup_of(settings: SuiteSettingsModel, prefix: Seq<char>) -> CypherQueryModel {
    CypherQueryModel {
        text: suite::cleanup_text(prefix, settings.cleanup_vectors),
        params: cypher::no_params(),
    }
}

/// What a suite of some cases does next.
pub open spec fn next_suite_step(
    settings: SuiteSettingsModel,
    plan: IndexPlanModel,
    prefix: Seq<char>,
    questions: nat,
    p: SuiteProgressModel,
) -> SuiteStepModel {
    if p.indexes < plan.statements.len() {
        SuiteStepModel::MakeIndex(plan.statements[p.indexes as int])
    } else if plan.error is Some {
        SuiteStepModel::Fail(plan.error->0)
    } else if settings.cleanup_before && !p.cleaned && !p.ingested {
        SuiteStepModel::Clean(cleanup_of(settings, prefix))
    } else if !p.ingested {
        SuiteStepModel::Ingest
    } else if p.cases.len() < questions {
        SuiteStepModel::RunCase(p.cases.len())
    } else if settings.cleanup_after && !p.swept {
        SuiteStepModel::Clean(cleanup_of(settings, prefix))
    } else {
        SuiteStepModel::Finish
    }
}

/// What came of a step.
#[derive(Debug, PartialEq)]
pub enum SuiteReply {
    /// An index statement was run, whether it did anything or not.
    Indexed,
    /// Some nodes were removed; `more` where others may be left.
    Cleaned { more: bool },
    /// The graph is loaded.
    Ingested,
    /// A case was run.
    Ran(E2eCaseReport),
}

pub enum SuiteReplyModel {
    Indexed,
    Cleaned { more: bool },
    Ingested,
    Ran(E2eCaseReportModel),
}

impl DeepView for SuiteReply {
    type V = SuiteReplyModel;

    open spec fn deep_view(&self) -> SuiteReplyModel {
        match self {
            SuiteReply::Indexed => SuiteReplyModel::Indexed,
            SuiteReply::Cleaned { more } => SuiteReplyModel::Cleaned { more: *more },
            SuiteReply::Ingested => SuiteReplyModel::Ingested,
            SuiteReply::Ran(report) => SuiteReplyModel::Ran(report.deep_view()),
        }
    }
}

/// How far a suite has come after a reply.
pub open spec fn progressed(p: SuiteProgressModel, reply: SuiteReplyModel) -> SuiteProgressModel {
    match reply {
        SuiteReplyModel::Indexed => SuiteProgressModel { indexes: p.indexes + 1, ..p },
        SuiteReplyModel::Cleaned { more } => if more {
            p
        } else if p.ingested {
            SuiteProgressModel { swept: true, ..p }
        } else {
            SuiteProgressModel { cleaned: true, ..p }
        },
        SuiteReplyModel::Ingested => SuiteProgressModel { ingested: true, ..p },
        SuiteReplyModel::Ran(report) => SuiteProgressModel { cases: p.cases.push(report), ..p },
    }
}

/// What a suite of `questions` cases does next.
pub fn suite_step(
    settings: &SuiteSettings,
    plan: &IndexPlan,
    prefix: &str,
    questions: usize,
    progress: &SuiteProgress,
) -> (r: SuiteStep)
    ensures
        r.deep_view() == next_suite_step(
            settings.deep_view(),
            plan.deep_view(),
            prefix@,
            questions as nat,
            progress.deep_view(),
        ),
{
    if progress.indexes < plan.statements.len() {
        let q = &plan.statements[progress.indexes];
        assert(plan.deep_view().statements[progress.indexes as int] == q.deep_view());
        return SuiteStep::MakeIndex(q.copied());
    }
    if let Some(e) = &plan.error {
        return SuiteStep::Fail(e.clone());
    }
    if settings.cleanup_before && !progress.cleaned && !progress.ingested {
        SuiteStep::Clean(suite::cleanup_query(prefix, settings.cleanup_vectors))
    } else if !progress.ingested {
        SuiteStep::Ingest
    } else if progress.cases.len() < questions {
        SuiteStep::RunCase(progress.cases.len())
    } else if settings.cleanup_after && !progress.swept {
        SuiteStep::Clean(suite::cleanup_query(prefix, settings.cleanup_vectors))
    } else {
        SuiteStep::Finish
    }
}

/// Note what came of a step.
pub fn advance(progress: &mut SuiteProgress, reply: SuiteReply)
    requires
        reply is Indexed ==> old(progress).indexes < usize::MAX,
    ensures
        final(progress).deep_view() == progressed(old(progress).deep_view(), reply.deep_view()),
{
    match reply {
        SuiteReply::Indexed => {
            progress.indexes = progress.indexes + 1;
        },
        SuiteReply::Cleaned { more } => {
            if !more {
                if progress.ingested {
                    progress.swept = true;
                } else {
                    progress.cleaned = true;
                }
            }
        },
        SuiteReply::Ingested => {
            progress.ingested = true;
        },
        SuiteReply::Ran(report) => {
            seqs::push_item(&mut progress.cases, report);
        },
    }
}

/// Does a reply answer a step?
pub open spec fn answers(reply: SuiteReplyModel, step: SuiteStepModel) -> bool {
    match step {
        SuiteStepModel::MakeIndex(_) => reply is Indexed,
        SuiteStepModel::Clean(_) => reply is Cleaned,
        SuiteStepModel::Ingest => reply is Ingested,
        SuiteStepModel::RunCase(_) => reply is Ran,
        SuiteStepModel::Finish => false,
        SuiteStepModel::Fail(_) => false,
    }
}

/// The steps that are left at most, where a cleanup counts as one.
pub open spec fn steps_left(plan: IndexPlanModel, questions: nat, p: SuiteProgressModel) -> int {
    let indexes = if p.indexes < plan.statements.len() {
        plan.statements.len() - p.indexes
    } else {
        0
    };
    let cases = if p.cases.len() < questions {
        questions - p.cases.len()
    } else {
        0
    };
    indexes + cases + (if p.cleaned {
        0int
    } else {
        1
    }) + (if p.ingested {
        0int
    } else {
        1
    }) + (if p.swept {
        0int
    } else {
        1
    })
}

/// A suite comes to an end: every reply leaves fewer steps, but for a cleanup that
/// found more to remove, which leaves as many.
pub proof fn law_suites_end(
    settings: SuiteSettingsModel,
    plan: IndexPlanModel,
    prefix: Seq<char>,
    questions: nat,
    p: SuiteProgressModel,
    reply: SuiteReplyModel,
)
    requires
        answers(reply, next_suite_step(settings, plan, prefix, questions, p)),
    ensures
        0 <= steps_left(plan, questions, progressed(p, reply)),
        match reply {
            SuiteReplyModel::Cleaned { more: true } => steps_left(
                plan,
                questions,
                progressed(p, reply),
            ) == steps_left(plan, questions, p),
            _ => steps_left(plan, questions, progressed(p, reply)) < steps_left(plan, questions, p),
        },
{
}

/// A suite that keeps its data removes nothing once the data is loaded.
pub proof fn law_kept_data_is_not_removed(
    settings: SuiteSettingsModel,
    plan: IndexPlanModel,
    prefix: Seq<char>,
    questions: nat,
    p: SuiteProgressModel,
)
    requires
        !settings.cleanup_after,
        p.ingested,
    ensures
        !(next_suite_step(settings, plan, prefix, questions, p) is Clean),
{
}

/// What is removed stands under the prefix of the suite.
pub proof fn law_only_the_prefix_is_cleaned(
    settings: SuiteSettingsModel,
    plan: IndexPlanModel,
    prefix: Seq<char>,
    questions: nat,
    p: SuiteProgressModel,
)
    ensures
        match next_suite_step(settings, plan, prefix, questions, p) {
            SuiteStepModel::Clean(q) => q.text == suite::cleanup_text(
                prefix,
                settings.cleanup_vectors,
            ),
            _ => true,
        },
{
}

/// Cases run in their order, each once, on loaded data.
pub proof fn law_cases_run_in_order(
    settings: SuiteSettingsModel,
    plan: IndexPlanModel,
    prefix: Seq<char>,
    questions: nat,
    p: SuiteProgressModel,
)
    ensures
        match next_suite_step(settings, plan, prefix, questions, p) {
            SuiteStepModel::RunCase(i) => p.ingested && i == p.cases.len() && i < questions,
            SuiteStepModel::Finish => p.ingested && p.cases.len() >= questions && (
            settings.cleanup_after ==> p.swept),
            _ => true,
        },
{
}

/// What holds of a suite that began with nothing done: no case ran before the data
/// was loaded, and no more cases than there are.
pub open spec fn orderly(questions: nat, p: SuiteProgressModel) -> bool {
    p.cases.len() <= questions && (p.cases.len() > 0 ==> p.ingested) && (p.swept ==> p.ingested
        && p.cases.len() == questions)
}

/// A suite stays orderly, so that its report has as many cases as it has questions.
pub proof fn law_suites_stay_orderly(
    settings: SuiteSettingsModel,
    plan: IndexPlanModel,
    prefix: Seq<char>,
    questions: nat,
    p: SuiteProgressModel,
    reply: SuiteReplyModel,
)
    requires
        orderly(questions, p),
    ensures
        orderly(questions, nothing_done()),
        answers(reply, next_suite_step(settings, plan, prefix, questions, p)) ==> orderly(
            questions,
            progressed(p, reply),
        ),
        next_suite_step(settings, plan, prefix, questions, p) is Finish ==> p.cases.len()
            == questions,
{
}

/// A suite first makes its indexes, in their order; then it cleans up where that is wanted and was
/// not done; then it loads its data, and only then runs its cases.
pub proof fn law_suites_prepare_first(
    settings: SuiteSettingsModel,
    plan: IndexPlanModel,
    prefix: Seq<char>,
    questions: nat,
    p: SuiteProgressModel,
)
    ensures
        ({
            let step = next_suite_step(settings, plan, prefix, questions, p);
            let indexed = p.indexes >= plan.statements.len();
            &&& !indexed ==> step == SuiteStepModel::MakeIndex(plan.statements[p.indexes as int])
            &&& indexed && plan.error is Some ==> step == SuiteStepModel::Fail(plan.error->0)
            &&& indexed && plan.error is None && !p.ingested ==> (if settings.cleanup_before
                && !p.cleaned {
                step is Clean
            } else {
                step is Ingest
            })
            &&& indexed && plan.error is None && p.ingested && p.cases.len() < questions ==> step
                == SuiteStepModel::RunCase(p.cases.len())
            &&& indexed && plan.error is None && p.ingested && p.cases.len() >= questions ==> (
            if settings.cleanup_after && !p.swept {
                step is Clean
            } else {
                step is Finish
            })
        }),
{
}

/// What came back is noted, and nothing else: an index, the data or a case is done; cleaning up is
/// done once nothing more is left, before the data is loaded or after.
pub proof fn law_replies_are_noted(p: SuiteProgressModel, report: E2eCaseReportModel)
    ensures
        ({
            let a = progressed(p, SuiteReplyModel::Indexed);
            a.indexes == p.indexes + 1 && a.cases == p.cases && a.cleaned == p.cleaned && a.ingested
                == p.ingested && a.swept == p.swept
        }),
        ({
            let b = progressed(p, SuiteReplyModel::Ingested);
            b.ingested && b.indexes == p.indexes && b.cases == p.cases && b.cleaned == p.cleaned
                && b.swept == p.swept
        }),
        ({
            let c = progressed(p, SuiteReplyModel::Ran(report));
            c.cases.len() == p.cases.len() + 1 && c.cases.last() == report && c.cases.drop_last()
                == p.cases && c.ingested == p.ingested && c.swept == p.swept
        }),
        progressed(p, SuiteReplyModel::Cleaned { more: true }) == p,
        ({
            let d = progressed(p, SuiteReplyModel::Cleaned { more: false });
            &&& d.cases == p.cases && d.indexes == p.indexes && d.ingested == p.ingested
            &&& p.ingested ==> d.swept && d.cleaned == p.cleaned
            &&& !p.ingested ==> d.cleaned && d.swept == p.swept
        }),
{
    assert(p.cases.push(report).drop_last() =~= p.cases);
}

} // verus!
