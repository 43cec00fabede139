use critter::gait::{leg_set, legs_of, Gait, GaitState, LegReport, LegSet, NUM_LEGS};

const QUIET: LegReport = LegReport { settled: true, wants_to_move: false };

fn reports(settled: [bool; NUM_LEGS], wants: [bool; NUM_LEGS]) -> [LegReport; NUM_LEGS] {
    let mut r = [QUIET; NUM_LEGS];
    for i in 0..NUM_LEGS {
        r[i] = LegReport { settled: settled[i], wants_to_move: wants[i] };
    }
    r
}

/// Drives the coordinator like a creature walking at constant speed: a leg
/// takes `arc_ticks` ticks to settle after it is retargeted, and the set that
/// did not move last is the one that strains.
fn walk(ticks: usize, arc_ticks: u32) -> (Vec<LegSet>, Vec<Gait>) {
    let mut gait = Gait::new();
    let mut remaining = [0u32; NUM_LEGS];
    let mut last: Option<LegSet> = None;
    let mut started = Vec::new();
    let mut states = Vec::new();
    for _ in 0..ticks {
        let mut r = [QUIET; NUM_LEGS];
        for i in 0..NUM_LEGS {
            r[i] = LegReport {
                settled: remaining[i] == 0,
                wants_to_move: last != Some(leg_set(i)),
            };
        }
        if let Some(set) = gait.coordinate(&r) {
            for i in legs_of(set) {
                remaining[i] = arc_ticks;
            }
            last = Some(set);
            started.push(set);
        }
        for i in 0..NUM_LEGS {
            remaining[i] = remaining[i].saturating_sub(1);
        }
        states.push(gait);
    }
    (started, states)
}

#[test]
fn legs_split_by_parity() {
    assert_eq!(leg_set(0), LegSet::A);
    assert_eq!(leg_set(1), LegSet::B);
    assert_eq!(leg_set(6), LegSet::A);
    assert_eq!(leg_set(7), LegSet::B);
    assert_eq!(legs_of(LegSet::A), vec![0, 2, 4, 6]);
    assert_eq!(legs_of(LegSet::B), vec![1, 3, 5, 7]);
    assert_eq!(LegSet::A.other(), LegSet::B);
    assert_eq!(LegSet::B.other(), LegSet::A);
}

#[test]
fn spawned_gait_is_idle_with_b_priority() {
    let g = Gait::new();
    assert_eq!(g.state, GaitState::Idle);
    assert_eq!(g.priority, LegSet::B);
    assert!(!g.just_moved);
}

#[test]
fn creature_at_rest_never_repositions() {
    let mut g = Gait::new();
    let r = [QUIET; NUM_LEGS];
    for _ in 0..100 {
        assert_eq!(g.coordinate(&r), None);
        assert_eq!(g.state, GaitState::Idle);
        assert_eq!(g.priority, LegSet::B);
    }
}

#[test]
fn set_a_takes_precedence_when_both_want() {
    let mut g = Gait::new();
    let r = reports([true; NUM_LEGS], [true; NUM_LEGS]);
    assert_eq!(g.coordinate(&r), Some(LegSet::A));
    assert_eq!(g.state, GaitState::Repositioning(LegSet::A));
}

#[test]
fn odd_leg_straining_starts_set_b() {
    let mut g = Gait::new();
    let mut wants = [false; NUM_LEGS];
    wants[3] = true;
    let r = reports([true; NUM_LEGS], wants);
    assert_eq!(g.coordinate(&r), Some(LegSet::B));
    assert_eq!(g.state, GaitState::Repositioning(LegSet::B));
    assert_eq!(g.priority, LegSet::B);
}

#[test]
fn moving_set_blocks_the_other_until_settled() {
    let mut g = Gait::new();
    let all = reports([true; NUM_LEGS], [true; NUM_LEGS]);
    assert_eq!(g.coordinate(&all), Some(LegSet::A));
    // Set A mid-arc, set B straining: nothing new is issued.
    let mut settled = [true; NUM_LEGS];
    settled[2] = false;
    let busy = reports(settled, [true; NUM_LEGS]);
    for _ in 0..5 {
        assert_eq!(g.coordinate(&busy), None);
        assert_eq!(g.state, GaitState::Repositioning(LegSet::A));
        assert_eq!(g.priority, LegSet::B);
    }
    // Unsettled odd legs do not hold back set A's completion.
    let mut settled = [true; NUM_LEGS];
    settled[1] = false;
    assert_eq!(g.coordinate(&reports(settled, [false; NUM_LEGS])), None);
    assert_eq!(g.state, GaitState::Idle);
    assert_eq!(g.priority, LegSet::A);
    assert!(g.just_moved);
}

#[test]
fn just_moved_guard_blocks_set_without_priority() {
    let mut g = Gait::new();
    let all = reports([true; NUM_LEGS], [true; NUM_LEGS]);
    assert_eq!(g.coordinate(&all), Some(LegSet::A));
    assert_eq!(g.coordinate(&reports([true; NUM_LEGS], [false; NUM_LEGS])), None);
    assert_eq!(g.priority, LegSet::A);
    assert!(g.just_moved);
    // Only B strains, but B lacks priority and A just settled: the guard is
    // cleared instead.
    let b_only = reports([true; NUM_LEGS], [false, true, false, true, false, true, false, true]);
    assert_eq!(g.coordinate(&b_only), None);
    assert_eq!(g.state, GaitState::Idle);
    assert!(!g.just_moved);
    assert_eq!(g.coordinate(&b_only), Some(LegSet::B));
}

#[test]
fn set_with_priority_may_restart_at_once() {
    let mut g = Gait::new();
    let all = reports([true; NUM_LEGS], [true; NUM_LEGS]);
    assert_eq!(g.coordinate(&all), Some(LegSet::A));
    assert_eq!(g.coordinate(&all), None);
    assert_eq!(g.priority, LegSet::A);
    assert_eq!(g.coordinate(&all), Some(LegSet::A));
}

#[test]
fn walking_alternates_sets() {
    // Speed 1 at 60 ticks a second: a foot arc takes ceil(60 / 7) ticks.
    let (started, states) = walk(50, 9);
    assert!(started.len() >= 5, "{:?}", started);
    for w in started.windows(2) {
        assert_ne!(w[0], w[1]);
    }
    let mut toggles = 0;
    let mut completions = 0;
    let mut prev = Gait::new();
    for g in &states {
        if g.priority != prev.priority {
            toggles += 1;
        }
        if matches!(prev.state, GaitState::Repositioning(_)) && g.state == GaitState::Idle {
            completions += 1;
        }
        prev = *g;
    }
    assert_eq!(toggles, completions);
    assert!(completions >= 4);
}
