//! The order of a run: what comes after what, what is done all the same where something failed,
//! and how the run ends.
use vstd::prelude::*;

verus! {

/// What a run is for.
#[derive(Clone, Copy, Debug, PartialEq, Eq, Structural)]
pub enum Purpose {
    /// To report on the remote host.
    Doctor,
    /// To run something in the sandbox.
    Launch,
}

/// What is to be done next.
#[derive(Clone, Copy, Debug, PartialEq, Eq, Structural)]
pub enum Phase {
    /// Check that everything is there.
    Preflight,
    /// Make a directory for the run and lay it out.
    PrepareRuntime,
    /// Bring in what ssh needs.
    StageSsh,
    /// Make the home directory of the sandbox.
    StageHome,
    /// Set the shared connection up.
    StartMaster,
    /// Find out about the remote host.
    Probe,
    /// Link the wrapped commands.
    LinkWrappers,
    /// Make the directories with replaced programs.
    BuildOverlay,
    /// Mount the remote root.
    Mount,
    /// Print the report, or run the sandbox.
    Body,
    /// Unmount the remote root.
    Unmount,
    /// Bring the known hosts back.
    Persist,
    /// Take the shared connection down.
    StopMaster,
    /// Remove the directory of the run.
    RemoveRuntime,
    /// Nothing.
    Done,
}

/// How far a phase is from the end of a run, at most.
pub open spec fn left(phase: Phase) -> nat {
    match phase {
        Phase::Preflight => 14,
        Phase::PrepareRuntime => 13,
        Phase::StageSsh => 12,
        Phase::StageHome => 11,
        Phase::StartMaster => 10,
        Phase::Probe => 9,
        Phase::LinkWrappers => 8,
        Phase::BuildOverlay => 7,
        Phase::Mount => 6,
        Phase::Body => 5,
        Phase::Unmount => 4,
        Phase::Persist => 3,
        Phase::StopMaster => 2,
        Phase::RemoveRuntime => 1,
        Phase::Done => 0,
    }
}

/// What comes after a phase that went well.
pub open spec fn after_success(purpose: Purpose, phase: Phase) -> Phase {
    match phase {
        Phase::Preflight => Phase::PrepareRuntime,
        Phase::PrepareRuntime => Phase::StageSsh,
        Phase::StageSsh => Phase::StageHome,
        Phase::StageHome => Phase::StartMaster,
        Phase::StartMaster => Phase::Probe,
        Phase::Probe => match purpose {
            Purpose::Doctor => Phase::Mount,
            Purpose::Launch => Phase::LinkWrappers,
        },
        Phase::LinkWrappers => Phase::BuildOverlay,
        Phase::BuildOverlay => Phase::Mount,
        Phase::Mount => Phase::Body,
        Phase::Body => Phase::Unmount,
        Phase::Unmount => Phase::Persist,
        Phase::Persist => Phase::StopMaster,
        Phase::StopMaster => Phase::RemoveRuntime,
        Phase::RemoveRuntime => Phase::Done,
        Phase::Done => Phase::Done,
    }
}

/// What comes after a phase that failed: the rest is left out, but what was set up is taken
/// down.
pub open spec fn after_failure(phase: Phase) -> Phase {
    match phase {
        Phase::Preflight | Phase::PrepareRuntime => Phase::Done,
        Phase::StageSsh | Phase::StageHome | Phase::StartMaster => Phase::RemoveRuntime,
        Phase::Probe | Phase::LinkWrappers | Phase::BuildOverlay | Phase::Mount => Phase::Persist,
        Phase::Body => Phase::Unmount,
        Phase::Unmount => Phase::Persist,
        Phase::Persist => Phase::StopMaster,
        Phase::StopMaster => Phase::RemoveRuntime,
        Phase::RemoveRuntime | Phase::Done => Phase::Done,
    }
}

/// Whether a failure in a phase is only a nuisance: taking things down is tried, and that is all.
pub open spec fn forgiven(phase: Phase) -> bool {
    phase is Unmount || phase is StopMaster || phase is RemoveRuntime || phase is Done
}

/// What comes after a phase.
pub open spec fn next_phase(purpose: Purpose, phase: Phase, well: bool) -> Phase {
    if well {
        after_success(purpose, phase)
    } else {
        after_failure(phase)
    }
}

/// How a run ends as far as is known, after a phase: the body says with which exit code, and a
/// later failure is what counts.
pub open spec fn next_result<E>(
    phase: Phase,
    result: Result<u8, E>,
    outcome: Result<u8, E>,
) -> Result<u8, E> {
    if forgiven(phase) {
        result
    } else if outcome is Err || phase is Body {
        outcome
    } else {
        result
    }
}

/// A run: what is to be done next, and how it ends as far as is known. Errors are of type `E`.
#[derive(Debug)]
pub struct Session<E> {
    pub purpose: Purpose,
    pub phase: Phase,
    pub result: Result<u8, E>,
}

impl<E> Session<E> {
    /// A run that has not begun.
    pub fn new(purpose: Purpose) -> (r: Self)
        ensures
            r.purpose == purpose,
            r.phase is Preflight,
            r.result == Ok::<u8, E>(0),
    {
        Session { purpose, phase: Phase::Preflight, result: Ok(0) }
    }

    /// The run after a phase with this outcome: an error, or an exit code, which matters only in
    /// the body.
    pub fn step(self, outcome: Result<u8, E>) -> (r: Self)
        ensures
            r.purpose == self.purpose,
            r.phase == next_phase(self.purpose, self.phase, outcome is Ok),
            r.result == next_result(self.phase, self.result, outcome),
    {
        let well = outcome.is_ok();
        let phase = match self.phase {
            Phase::Preflight => if well {
                Phase::PrepareRuntime
            } else {
                Phase::Done
            },
            Phase::PrepareRuntime => if well {
                Phase::StageSsh
            } else {
                Phase::Done
            },
            Phase::StageSsh => if well {
                Phase::StageHome
            } else {
                Phase::RemoveRuntime
            },
            Phase::StageHome => if well {
                Phase::StartMaster
            } else {
                Phase::RemoveRuntime
            },
            Phase::StartMaster => if well {
                Phase::Probe
            } else {
                Phase::RemoveRuntime
            },
            Phase::Probe => if !well {
                Phase::Persist
            } else {
                match self.purpose {
                    Purpose::Doctor => Phase::Mount,
                    Purpose::Launch => Phase::LinkWrappers,
                }
            },
            Phase::LinkWrappers => if well {
                Phase::BuildOverlay
            } else {
                Phase::Persist
            },
            Phase::BuildOverlay => if well {
                Phase::Mount
            } else {
                Phase::Persist
            },
            Phase::Mount => if well {
                Phase::Body
            } else {
                Phase::Persist
            },
            Phase::Body => Phase::Unmount,
            Phase::Unmount => Phase::Persist,
            Phase::Persist => Phase::StopMaster,
            Phase::StopMaster => Phase::RemoveRuntime,
            Phase::RemoveRuntime => Phase::Done,
            Phase::Done => Phase::Done,
        };
        let result = match self.phase {
            Phase::Unmount | Phase::StopMaster | Phase::RemoveRuntime | Phase::Done => self.result,
            Phase::Body => outcome,
            _ => match outcome {
                Ok(_) => self.result,
                Err(e) => Err(e),
            },
        };
        Session { purpose: self.purpose, phase, result }
    }
}

/// The phases of a run from one of them on. `well` says of each phase whether it goes well.
pub open spec fn course(purpose: Purpose, well: spec_fn(Phase) -> bool, phase: Phase) -> Seq<Phase>
    decreases left(phase),
{
    if phase is Done {
        seq![]
    } else {
        seq![phase] + course(purpose, well, next_phase(purpose, phase, well(phase)))
    }
}

/// How a run ends from one of its phases on. `outcome` says how each phase goes.
pub open spec fn ending<E>(
    purpose: Purpose,
    outcome: spec_fn(Phase) -> Result<u8, E>,
    phase: Phase,
    result: Result<u8, E>,
) -> Result<u8, E>
    decreases left(phase),
{
    if phase is Done {
        result
    } else {
        ending(
            purpose,
            outcome,
            next_phase(purpose, phase, outcome(phase) is Ok),
            next_result(phase, result, outcome(phase)),
        )
    }
}

/// Every run comes to its end: each phase leads to one that is nearer to it.
pub proof fn runs_end(purpose: Purpose, phase: Phase, well: bool)
    requires
        !(phase is Done),
    ensures
        left(next_phase(purpose, phase, well)) < left(phase),
{
}

proof fn lemma_course(purpose: Purpose, well: spec_fn(Phase) -> bool, phase: Phase)
    requires
        !(phase is Done),
    ensures
        ({
            let next = next_phase(purpose, phase, well(phase));
            let all = course(purpose, well, phase);
            let rest = course(purpose, well, next);
            &&& all == seq![phase] + rest
            &&& all.contains(phase)
            &&& forall|p: Phase| #[trigger] rest.contains(p) ==> all.contains(p)
        }),
{
    let next = next_phase(purpose, phase, well(phase));
    let all = course(purpose, well, phase);
    let rest = course(purpose, well, next);
    assert(all[0] == phase);
    assert forall|p: Phase| #[trigger] rest.contains(p) implies all.contains(p) by {
        let i = choose|i: int| 0 <= i < rest.len() && rest[i] == p;
        assert(all[i + 1] == p);
    }
}

/// The last phases of a run with a connection, from the first of them on.
proof fn lemma_closing(purpose: Purpose, well: spec_fn(Phase) -> bool)
    ensures
        course(purpose, well, Phase::RemoveRuntime) == seq![Phase::RemoveRuntime],
        course(purpose, well, Phase::StopMaster) == seq![Phase::StopMaster, Phase::RemoveRuntime],
        course(purpose, well, Phase::Persist) == seq![
            Phase::Persist,
            Phase::StopMaster,
            Phase::RemoveRuntime,
        ],
        course(purpose, well, Phase::Unmount) == seq![
            Phase::Unmount,
            Phase::Persist,
            Phase::StopMaster,
            Phase::RemoveRuntime,
        ],
{
    let c0 = course(purpose, well, Phase::Done);
    let c1 = course(purpose, well, Phase::RemoveRuntime);
    let c2 = course(purpose, well, Phase::StopMaster);
    let c3 = course(purpose, well, Phase::Persist);
    let c4 = course(purpose, well, Phase::Unmount);
    assert(c0 =~= seq![]);
    assert(c1 =~= seq![Phase::RemoveRuntime]);
    assert(c2 =~= seq![Phase::StopMaster, Phase::RemoveRuntime]);
    assert(c3 =~= seq![Phase::Persist, Phase::StopMaster, Phase::RemoveRuntime]);
    assert(c4 =~= seq![Phase::Unmount, Phase::Persist, Phase::StopMaster, Phase::RemoveRuntime]);
}

proof fn lemma_ends(purpose: Purpose, well: spec_fn(Phase) -> bool, phase: Phase)
    requires
        1 <= left(phase) <= 12,
    ensures
        ({
            let run = course(purpose, well, phase);
            &&& seq![Phase::RemoveRuntime].is_suffix_of(run)
            &&& 3 <= left(phase) <= 9 ==> seq![
                Phase::Persist,
                Phase::StopMaster,
                Phase::RemoveRuntime,
            ].is_suffix_of(run)
            &&& 4 <= left(phase) <= 5 ==> seq![
                Phase::Unmount,
                Phase::Persist,
                Phase::StopMaster,
                Phase::RemoveRuntime,
            ].is_suffix_of(run)
        }),
    decreases left(phase),
{
    lemma_closing(purpose, well);
    let run = course(purpose, well, phase);
    if left(phase) > 4 {
        let next = next_phase(purpose, phase, well(phase));
        let rest = course(purpose, well, next);
        lemma_ends(purpose, well, next);
        lemma_course(purpose, well, phase);
        lemma_suffix(seq![Phase::RemoveRuntime], phase, rest);
        lemma_suffix(seq![Phase::Persist, Phase::StopMaster, Phase::RemoveRuntime], phase, rest);
        lemma_suffix(
            seq![Phase::Unmount, Phase::Persist, Phase::StopMaster, Phase::RemoveRuntime],
            phase,
            rest,
        );
    } else {
        let n = run.len() as int;
        assert(run.subrange(n - 1, n) =~= seq![Phase::RemoveRuntime]);
        if left(phase) >= 3 {
            assert(run.subrange(n - 3, n) =~= seq![
                Phase::Persist,
                Phase::StopMaster,
                Phase::RemoveRuntime,
            ]);
        }
        if left(phase) == 4 {
            assert(run.subrange(n - 4, n) =~= run);
        }
    }
}

proof fn lemma_suffix(end: Seq<Phase>, phase: Phase, rest: Seq<Phase>)
    ensures
        end.is_suffix_of(rest) ==> end.is_suffix_of(seq![phase] + rest),
{
    if end.is_suffix_of(rest) {
        let all = seq![phase] + rest;
        assert(all.subrange(all.len() - end.len(), all.len() as int) =~= rest.subrange(
            rest.len() - end.len(),
            rest.len() as int,
        ));
    }
}

/// What a run set up is taken down at its end, whatever fails in between: a run that has a
/// directory ends with its removal; one that has a connection brings the known hosts back and
/// takes the connection down before that; one that has the remote root mounted unmounts it
/// first.
pub proof fn what_was_set_up_is_taken_down(
    purpose: Purpose,
    well: spec_fn(Phase) -> bool,
    phase: Phase,
)
    ensures
        ({
            let run = course(purpose, well, phase);
            &&& run.contains(Phase::StageSsh) ==> seq![Phase::RemoveRuntime].is_suffix_of(run)
            &&& run.contains(Phase::Probe) ==> seq![
                Phase::Persist,
                Phase::StopMaster,
                Phase::RemoveRuntime,
            ].is_suffix_of(run)
            &&& run.contains(Phase::Body) ==> seq![
                Phase::Unmount,
                Phase::Persist,
                Phase::StopMaster,
                Phase::RemoveRuntime,
            ].is_suffix_of(run)
        }),
    decreases left(phase),
{
    let run = course(purpose, well, phase);
    if !(phase is Done) {
        let next = next_phase(purpose, phase, well(phase));
        let rest = course(purpose, well, next);
        what_was_set_up_is_taken_down(purpose, well, next);
        lemma_course(purpose, well, phase);
        if left(phase) <= 12 {
            lemma_ends(purpose, well, phase);
        }
        lemma_suffix(seq![Phase::RemoveRuntime], phase, rest);
        lemma_suffix(seq![Phase::Persist, Phase::StopMaster, Phase::RemoveRuntime], phase, rest);
        lemma_suffix(
            seq![Phase::Unmount, Phase::Persist, Phase::StopMaster, Phase::RemoveRuntime],
            phase,
            rest,
        );
        assert forall|p: Phase| #[trigger] run.contains(p) && p != phase implies rest.contains(
            p,
        ) by {
            let i = choose|i: int| 0 <= i < run.len() && run[i] == p;
            assert(rest[i - 1] == p);
        }
    }
}

proof fn lemma_only_what_was_set_up(purpose: Purpose, well: spec_fn(Phase) -> bool, phase: Phase)
    ensures
        ({
            let run = course(purpose, well, phase);
            &&& run.contains(Phase::Unmount) ==> left(phase) <= 5 || run.contains(Phase::Mount)
                && well(Phase::Mount)
            &&& run.contains(Phase::StopMaster) ==> left(phase) <= 9 || run.contains(
                Phase::StartMaster,
            ) && well(Phase::StartMaster)
            &&& run.contains(Phase::RemoveRuntime) ==> left(phase) <= 12 || run.contains(
                Phase::PrepareRuntime,
            ) && well(Phase::PrepareRuntime)
        }),
    decreases left(phase),
{
    let run = course(purpose, well, phase);
    if !(phase is Done) {
        let next = next_phase(purpose, phase, well(phase));
        let rest = course(purpose, well, next);
        lemma_only_what_was_set_up(purpose, well, next);
        lemma_course(purpose, well, phase);
        lemma_closing(purpose, well);
        assert forall|p: Phase| #[trigger] run.contains(p) && p != phase implies rest.contains(
            p,
        ) by {
            let i = choose|i: int| 0 <= i < run.len() && run[i] == p;
            assert(rest[i - 1] == p);
        }
        if !well(phase) && left(phase) > 5 {
            assert(!rest.contains(Phase::Unmount));
            if left(phase) > 9 {
                assert(!rest.contains(Phase::StopMaster));
            }
        }
    }
}

/// Nothing is taken down that was not set up: a run unmounts only what it mounted, takes down
/// only a connection that it set up, and removes only a directory that it made.
pub proof fn only_what_was_set_up_is_taken_down(purpose: Purpose, well: spec_fn(Phase) -> bool)
    ensures
        ({
            let run = course(purpose, well, Phase::Preflight);
            &&& run.contains(Phase::Unmount) ==> run.contains(Phase::Mount) && well(Phase::Mount)
            &&& run.contains(Phase::StopMaster) ==> run.contains(Phase::StartMaster) && well(
                Phase::StartMaster,
            )
            &&& run.contains(Phase::RemoveRuntime) ==> run.contains(Phase::PrepareRuntime) && well(
                Phase::PrepareRuntime,
            )
        }),
{
    lemma_only_what_was_set_up(purpose, well, Phase::Preflight);
}

/// Whether each phase goes well.
pub open spec fn goes_well<E>(outcome: spec_fn(Phase) -> Result<u8, E>) -> spec_fn(Phase) -> bool {
    |phase: Phase| outcome(phase) is Ok
}

proof fn lemma_closing_result<E>(
    purpose: Purpose,
    outcome: spec_fn(Phase) -> Result<u8, E>,
    phase: Phase,
    result: Result<u8, E>,
)
    requires
        left(phase) <= 4,
    ensures
        ending(purpose, outcome, phase, result) == if left(phase) >= 3 && outcome(
            Phase::Persist,
        ) is Err {
            outcome(Phase::Persist)
        } else {
            result
        },
    decreases left(phase),
{
    if !(phase is Done) {
        lemma_closing_result(
            purpose,
            outcome,
            next_phase(purpose, phase, outcome(phase) is Ok),
            next_result(phase, result, outcome(phase)),
        );
    }
}

proof fn lemma_ending<E>(
    purpose: Purpose,
    outcome: spec_fn(Phase) -> Result<u8, E>,
    phase: Phase,
    result: Result<u8, E>,
)
    requires
        left(phase) >= 5,
    ensures
        ({
            let run = course(purpose, goes_well(outcome), phase);
            let end = ending(purpose, outcome, phase, result);
            let lost = run.contains(Phase::Persist) && outcome(Phase::Persist) is Err;
            &&& lost ==> end == outcome(Phase::Persist)
            &&& !lost ==> forall|p: Phase| #[trigger]
                run.contains(p) && !forgiven(p) && outcome(p) is Err ==> end == outcome(p)
            &&& (forall|p: Phase| #[trigger] run.contains(p) && !forgiven(p) ==> outcome(p) is Ok)
                ==> run.contains(Phase::Body) && end == outcome(Phase::Body)
        }),
    decreases left(phase),
{
    let well = goes_well(outcome);
    let run = course(purpose, well, phase);
    let next = next_phase(purpose, phase, well(phase));
    let rest = course(purpose, well, next);
    let after = next_result(phase, result, outcome(phase));
    lemma_course(purpose, well, phase);
    lemma_closing(purpose, well);
    assert forall|p: Phase| #[trigger] run.contains(p) && p != phase implies rest.contains(p) by {
        let i = choose|i: int| 0 <= i < run.len() && run[i] == p;
        assert(rest[i - 1] == p);
    }
    if well(phase) && left(phase) > 5 {
        lemma_ending(purpose, outcome, next, after);
        assert(rest.contains(Phase::Persist) ==> run.contains(Phase::Persist));
    } else {
        lemma_closing_result(purpose, outcome, next, after);
        assert forall|p: Phase| #[trigger] rest.contains(p) && !forgiven(p) implies p
            is Persist by {
            let i = choose|i: int| 0 <= i < rest.len() && rest[i] == p;
            if left(next) > 0 {
                assert(rest[i] == p);
            }
        }
        if left(next) >= 3 {
            assert(rest[if left(next) == 4 { 1 } else { 0 }] == Phase::Persist);
            assert(rest.contains(Phase::Persist));
        }
    }
}

/// How a run ends: where the known hosts cannot be brought back, with that error; otherwise with
/// the error of the phase that failed, if taking down is left out; and where none failed, as the
/// body did.
pub proof fn runs_end_with_what_went_wrong<E>(
    purpose: Purpose,
    outcome: spec_fn(Phase) -> Result<u8, E>,
)
    ensures
        ({
            let run = course(purpose, goes_well(outcome), Phase::Preflight);
            let end = ending(purpose, outcome, Phase::Preflight, Ok(0));
            let lost = run.contains(Phase::Persist) && outcome(Phase::Persist) is Err;
            &&& lost ==> end == outcome(Phase::Persist)
            &&& !lost ==> forall|p: Phase| #[trigger]
                run.contains(p) && !forgiven(p) && outcome(p) is Err ==> end == outcome(p)
            &&& (forall|p: Phase| #[trigger] run.contains(p) && !forgiven(p) ==> outcome(p) is Ok)
                ==> run.contains(Phase::Body) && end == outcome(Phase::Body)
        }),
{
    lemma_ending(purpose, outcome, Phase::Preflight, Ok(0));
}

/// The phases of a run up to its body, where all goes well.
pub open spec fn way_to_the_body(purpose: Purpose) -> Seq<Phase> {
    match purpose {
        Purpose::Doctor => seq![
            Phase::Preflight,
            Phase::PrepareRuntime,
            Phase::StageSsh,
            Phase::StageHome,
            Phase::StartMaster,
            Phase::Probe,
            Phase::Mount,
            Phase::Body,
        ],
        Purpose::Launch => seq![
            Phase::Preflight,
            Phase::PrepareRuntime,
            Phase::StageSsh,
            Phase::StageHome,
            Phase::StartMaster,
            Phase::Probe,
            Phase::LinkWrappers,
            Phase::BuildOverlay,
            Phase::Mount,
            Phase::Body,
        ],
    }
}

/// What is taken down once a phase was the last one on the way to the body.
pub open spec fn way_back(phase: Phase) -> Seq<Phase> {
    match phase {
        Phase::Preflight | Phase::PrepareRuntime => seq![],
        Phase::StageSsh | Phase::StageHome | Phase::StartMaster => seq![Phase::RemoveRuntime],
        Phase::Probe | Phase::LinkWrappers | Phase::BuildOverlay | Phase::Mount => seq![
            Phase::Persist,
            Phase::StopMaster,
            Phase::RemoveRuntime,
        ],
        _ => seq![Phase::Unmount, Phase::Persist, Phase::StopMaster, Phase::RemoveRuntime],
    }
}

proof fn lemma_way(purpose: Purpose, well: spec_fn(Phase) -> bool, i: int, k: int)
    requires
        ({
            let way = way_to_the_body(purpose);
            &&& 0 <= i <= k < way.len()
            &&& forall|j: int| i <= j < k ==> well(#[trigger] way[j])
            &&& k == way.len() - 1 || !well(way[k])
        }),
    ensures
        ({
            let way = way_to_the_body(purpose);
            course(purpose, well, way[i]) == way.subrange(i, k + 1) + way_back(way[k])
        }),
    decreases k - i,
{
    let way = way_to_the_body(purpose);
    lemma_course(purpose, well, way[i]);
    lemma_closing(purpose, well);
    if i < k {
        assert(well(way[i]));
        lemma_way(purpose, well, i + 1, k);
        assert(next_phase(purpose, way[i], true) == way[i + 1]);
        assert(seq![way[i]] + (way.subrange(i + 1, k + 1) + way_back(way[k])) =~= way.subrange(
            i,
            k + 1,
        ) + way_back(way[k]));
    } else {
        let next = next_phase(purpose, way[k], well(way[k]));
        assert(course(purpose, well, Phase::Done) =~= seq![]);
        assert(course(purpose, well, next) == way_back(way[k]));
        assert(way.subrange(k, k + 1) =~= seq![way[k]]);
    }
}

/// A run goes through all its phases in order, up to the first that fails or to its body, and then
/// takes down what there is to take down.
pub proof fn runs_go_up_to_the_first_failure(
    purpose: Purpose,
    well: spec_fn(Phase) -> bool,
    k: int,
)
    requires
        ({
            let way = way_to_the_body(purpose);
            &&& 0 <= k < way.len()
            &&& forall|j: int| 0 <= j < k ==> well(#[trigger] way[j])
            &&& k == way.len() - 1 || !well(way[k])
        }),
    ensures
        ({
            let way = way_to_the_body(purpose);
            course(purpose, well, Phase::Preflight) == way.take(k + 1) + way_back(way[k])
        }),
{
    let way = way_to_the_body(purpose);
    lemma_way(purpose, well, 0, k);
    assert(way.subrange(0, k + 1) =~= way.take(k + 1));
}

/// What is left of failures: one on the way counts, the body says how the run ends, and one in
/// taking down counts only where known hosts are lost.
pub proof fn failures_count_on_the_way<E>(phase: Phase, result: Result<u8, E>, outcome: Result<u8, E>)
    ensures
        phase is Body ==> next_result(phase, result, outcome) == outcome,
        left(phase) > 5 || phase is Persist ==> next_result(phase, result, outcome) == (
        match outcome {
            Ok(_) => result,
            Err(e) => Err(e),
        }),
        phase is Unmount || phase is StopMaster || phase is RemoveRuntime ==> next_result(
            phase,
            result,
            outcome,
        ) == result,
{
}

} // verus!
