use gobgp_sync::round::{write_state, Round, RoundAction, RoundEvent, RoundKind, RoundPhase};

fn play(kind: RoundKind, events: &[RoundEvent]) -> (Round, Vec<RoundAction>) {
    let mut r = Round::start(kind);
    let mut actions = Vec::new();
    for e in events {
        assert!(r.expects(e));
        let (n, a) = r.step(*e);
        r = n;
        actions.push(a);
    }
    (r, actions)
}

#[test]
fn clean_table_round_applies_reconciles_and_saves() {
    let (r, a) = play(RoundKind::Table, &[
        RoundEvent::Begin { nothing_to_apply: false },
        RoundEvent::ApplyDone { fail: 0 },
        RoundEvent::ReconcileDone { fail: 0 },
        RoundEvent::SaveDone { ok: true },
    ]);
    assert_eq!(a, vec![RoundAction::Apply, RoundAction::Reconcile, RoundAction::Save, RoundAction::Stop { saved: true }]);
    assert_eq!(r.phase, RoundPhase::Done { saved: true });
}

#[test]
fn unchanged_table_still_reconciles_with_the_rib() {
    let (r, a) = play(RoundKind::Table, &[
        RoundEvent::Begin { nothing_to_apply: true },
        RoundEvent::ReconcileDone { fail: 0 },
        RoundEvent::SaveDone { ok: false },
    ]);
    assert_eq!(a, vec![RoundAction::Reconcile, RoundAction::Save, RoundAction::Stop { saved: false }]);
    assert_eq!(r.phase, RoundPhase::Done { saved: false });
}

#[test]
fn failures_keep_the_old_snapshot() {
    let (r, a) = play(RoundKind::Table, &[RoundEvent::Begin { nothing_to_apply: false }, RoundEvent::ApplyDone { fail: 3 }]);
    assert_eq!(a.last(), Some(&RoundAction::Stop { saved: false }));
    assert!(!r.expects(&RoundEvent::ReconcileDone { fail: 0 }));
    let (_, a) = play(RoundKind::Table, &[RoundEvent::Begin { nothing_to_apply: true }, RoundEvent::ReconcileDone { fail: 1 }]);
    assert_eq!(a.last(), Some(&RoundAction::Stop { saved: false }));
}

#[test]
fn rewrite_rounds_skip_the_rib() {
    let (_, a) = play(RoundKind::Rewrite, &[
        RoundEvent::Begin { nothing_to_apply: false },
        RoundEvent::ApplyDone { fail: 0 },
        RoundEvent::SaveDone { ok: true },
    ]);
    assert_eq!(a, vec![RoundAction::Apply, RoundAction::Save, RoundAction::Stop { saved: true }]);
    let (r, a) = play(RoundKind::Rewrite, &[RoundEvent::Begin { nothing_to_apply: true }]);
    assert_eq!(a, vec![RoundAction::Stop { saved: true }]);
    assert_eq!(r.phase, RoundPhase::Done { saved: true });
}

#[test]
fn events_out_of_order_are_refused() {
    let r = Round::start(RoundKind::Table);
    assert!(!r.expects(&RoundEvent::SaveDone { ok: true }));
    assert!(r.expects(&RoundEvent::Begin { nothing_to_apply: true }));
}

#[test]
fn state_is_written_only_after_kept_rounds() {
    assert!(write_state(&vec![true, true], false));
    assert!(!write_state(&vec![true, false], false));
    assert!(!write_state(&vec![true], true));
    assert!(!write_state(&Vec::new(), false));
}
