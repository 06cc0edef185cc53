//! The steps of one round of applying a prefix table to GoBGP, as a state
//! machine: the program performs each action and reports what came of it;
//! the machine says what to do next and whether the snapshot was kept.
use vstd::prelude::*;

verus! {

/// What a round applies.
#[derive(Clone, Copy, PartialEq, Eq, Structural, Debug)]
pub enum RoundKind {
    /// A new table (country prefixes or DNS host routes): apply the
    /// difference against the previous one, re-announce what the RIB lacks,
    /// then save the snapshot.
    Table,
    /// The snapshot's prefixes with rewritten attributes: replace the old
    /// routes, then save the snapshot.
    Rewrite,
}

/// How far a round has gone.
#[derive(Clone, Copy, PartialEq, Eq, Structural, Debug)]
pub enum RoundPhase {
    Start,
    Applying,
    Reconciling,
    Saving,
    /// The round is over; `saved` tells whether the snapshot now holds
    /// the round's table.
    Done { saved: bool },
}

/// What the program reports after the machine's last action.
#[derive(Clone, Copy, PartialEq, Eq, Structural, Debug)]
pub enum RoundEvent {
    /// The round begins. For a table: the difference against the previous
    /// one is empty; for a rewrite: the snapshot holds no entry.
    Begin { nothing_to_apply: bool },
    /// Announcements and withdrawals ended with `fail` failures.
    ApplyDone { fail: u32 },
    /// Re-announcing what the RIB lacked ended with `fail` failures (a
    /// failed listing of the RIB counts as one).
    ReconcileDone { fail: u32 },
    /// Writing the snapshot succeeded or not.
    SaveDone { ok: bool },
}

/// What the program does next.
#[derive(Clone, Copy, PartialEq, Eq, Structural, Debug)]
pub enum RoundAction {
    /// Announce and withdraw the difference (for a rewrite: withdraw the old
    /// routes and announce the rewritten ones).
    Apply,
    /// List the RIB and announce what it lacks.
    Reconcile,
    /// Write the snapshot.
    Save,
    /// Nothing more; the old snapshot is kept unless `saved`.
    Stop { saved: bool },
}

#[derive(Clone, Copy, PartialEq, Eq, Structural, Debug)]
pub struct Round {
    pub kind: RoundKind,
    pub phase: RoundPhase,
}

/// The event answers the action of the phase.
pub open spec fn fits(p: RoundPhase, e: RoundEvent) -> bool {
    match p {
        RoundPhase::Start => e is Begin,
        RoundPhase::Applying => e is ApplyDone,
        RoundPhase::Reconciling => e is ReconcileDone,
        RoundPhase::Saving => e is SaveDone,
        RoundPhase::Done { .. } => false,
    }
}

/// The phase after an action, and the action.
pub open spec fn enter(kind: RoundKind, a: RoundAction) -> Round {
    Round {
        kind,
        phase: match a {
            RoundAction::Apply => RoundPhase::Applying,
            RoundAction::Reconcile => RoundPhase::Reconciling,
            RoundAction::Save => RoundPhase::Saving,
            RoundAction::Stop { saved } => RoundPhase::Done { saved },
        },
    }
}

/// The next action. A table with nothing to apply goes straight to the
/// RIB; a rewrite of an empty snapshot has nothing to do and counts as
/// kept. Any failure stops the round and keeps the old snapshot for the
/// next try; a rewrite does not look at the RIB.
pub open spec fn next_action(kind: RoundKind, e: RoundEvent) -> RoundAction {
    match e {
        RoundEvent::Begin { nothing_to_apply } => if !nothing_to_apply {
            RoundAction::Apply
        } else if kind == RoundKind::Table {
            RoundAction::Reconcile
        } else {
            RoundAction::Stop { saved: true }
        },
        RoundEvent::ApplyDone { fail } => if fail > 0 {
            RoundAction::Stop { saved: false }
        } else if kind == RoundKind::Table {
            RoundAction::Reconcile
        } else {
            RoundAction::Save
        },
        RoundEvent::ReconcileDone { fail } => if fail > 0 {
            RoundAction::Stop { saved: false }
        } else {
            RoundAction::Save
        },
        RoundEvent::SaveDone { ok } => RoundAction::Stop { saved: ok },
    }
}

/// The round after the events, each answering the action before it; none
/// when one does not.
pub open spec fn run(r: Round, evs: Seq<RoundEvent>) -> Option<Round>
    decreases evs.len(),
{
    if evs.len() == 0 {
        Some(r)
    } else if !fits(r.phase, evs[0]) {
        None
    } else {
        run(enter(r.kind, next_action(r.kind, evs[0])), evs.skip(1))
    }
}

/// An event that reports failures.
pub open spec fn failed(e: RoundEvent) -> bool {
    match e {
        RoundEvent::ApplyDone { fail } => fail > 0,
        RoundEvent::ReconcileDone { fail } => fail > 0,
        RoundEvent::SaveDone { ok } => !ok,
        RoundEvent::Begin { .. } => false,
    }
}

impl Round {
    /// A round of `kind` before anything was done.
    pub fn start(kind: RoundKind) -> (r: Round)
        ensures
            r == (Round { kind, phase: RoundPhase::Start }),
    {
        Round { kind, phase: RoundPhase::Start }
    }

    /// Whether `e` answers the action the round waits on.
    pub fn expects(&self, e: &RoundEvent) -> (r: bool)
        ensures
            r == fits(self.phase, *e),
    {
        match self.phase {
            RoundPhase::Start => matches!(e, RoundEvent::Begin { .. }),
            RoundPhase::Applying => matches!(e, RoundEvent::ApplyDone { .. }),
            RoundPhase::Reconciling => matches!(e, RoundEvent::ReconcileDone { .. }),
            RoundPhase::Saving => matches!(e, RoundEvent::SaveDone { .. }),
            RoundPhase::Done { .. } => false,
        }
    }

    /// The round after `e`, and what to do next; see `next_action`.
    pub fn step(&self, e: RoundEvent) -> (r: (Round, RoundAction))
        requires
            fits(self.phase, e),
        ensures
            r.1 == next_action(self.kind, e),
            r.0 == enter(self.kind, r.1),
            failed(e) ==> r.1 == (RoundAction::Stop { saved: false }),
    {
        let a = match e {
            RoundEvent::Begin { nothing_to_apply } => if !nothing_to_apply {
                RoundAction::Apply
            } else if self.kind == RoundKind::Table {
                RoundAction::Reconcile
            } else {
                RoundAction::Stop { saved: true }
            },
            RoundEvent::ApplyDone { fail } => if fail > 0 {
                RoundAction::Stop { saved: false }
            } else if self.kind == RoundKind::Table {
                RoundAction::Reconcile
            } else {
                RoundAction::Save
            },
            RoundEvent::ReconcileDone { fail } => if fail > 0 {
                RoundAction::Stop { saved: false }
            } else {
                RoundAction::Save
            },
            RoundEvent::SaveDone { ok } => RoundAction::Stop { saved: ok },
        };
        let phase = match a {
            RoundAction::Apply => RoundPhase::Applying,
            RoundAction::Reconcile => RoundPhase::Reconciling,
            RoundAction::Save => RoundPhase::Saving,
            RoundAction::Stop { saved } => RoundPhase::Done { saved },
        };
        (Round { kind: self.kind, phase }, a)
    }
}

/// Whether the state file is written after a run: some family's table was
/// extracted or rewritten (`saved` holds one flag per such round, telling
/// whether it kept its snapshot), every one of them was kept, and no
/// download failed.
pub fn write_state(saved: &Vec<bool>, download_failed: bool) -> (r: bool)
    ensures
        r == (!download_failed && saved@.len() > 0 && forall|i: int|
            0 <= i < saved@.len() ==> #[trigger] saved@[i]),
{
    let mut all = true;
    let mut i: usize = 0;
    while i < saved.len()
        invariant
            i <= saved.len(),
            all == forall|j: int| 0 <= j < i ==> #[trigger] saved@[j],
        decreases saved.len() - i,
    {
        all = all && saved[i];
        i += 1;
    }
    !download_failed && saved.len() > 0 && all
}

/// A round that ends with its snapshot saved met no failure on the way.
pub proof fn law_saved_round_had_no_failure(r: Round, evs: Seq<RoundEvent>)
    requires
        run(r, evs) == Some(Round { kind: r.kind, phase: RoundPhase::Done { saved: true } }),
    ensures
        forall|i: int| 0 <= i < evs.len() ==> !#[trigger] failed(evs[i]),
    decreases evs.len(),
{
    if evs.len() > 0 {
        let nxt = enter(r.kind, next_action(r.kind, evs[0]));
        assert(fits(r.phase, evs[0]));
        if failed(evs[0]) {
            assert(nxt.phase == RoundPhase::Done { saved: false });
            if evs.len() > 1 {
                assert(!fits(nxt.phase, evs.skip(1)[0]));
            }
            assert(false);
        }
        if nxt.phase is Done {
            if evs.len() > 1 {
                assert(!fits(nxt.phase, evs.skip(1)[0]));
                assert(false);
            }
            assert(evs.len() == 1);
        } else {
            law_saved_round_had_no_failure(nxt, evs.skip(1));
            assert forall|i: int| 0 <= i < evs.len() implies !#[trigger] failed(evs[i]) by {
                if i > 0 {
                    assert(evs[i] == evs.skip(1)[i - 1]);
                }
            }
        }
    }
}

} // verus!
