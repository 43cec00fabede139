use vstd::prelude::*;

verus! {

/// Number of legs of every creature; a leg's index is fixed at spawn.
pub const NUM_LEGS: usize = 8;

/// The two alternating leg sets: even leg indices form `A`, odd ones `B`.
#[derive(Clone, Copy, Debug, PartialEq, Eq, Structural)]
pub enum LegSet {
    A,
    B,
}

impl LegSet {
    pub open spec fn flipped(self) -> LegSet {
        match self {
            LegSet::A => LegSet::B,
            LegSet::B => LegSet::A,
        }
    }

    /// The set that is not `self`.
    pub fn other(self) -> (r: LegSet)
        ensures
            r == self.flipped(),
    {
        match self {
            LegSet::A => LegSet::B,
            LegSet::B => LegSet::A,
        }
    }
}

/// The set that the leg with this index belongs to.
pub open spec fn set_of(index: int) -> LegSet {
    if index % 2 == 0 {
        LegSet::A
    } else {
        LegSet::B
    }
}

/// Partition key of a leg: the parity of its index.
pub fn leg_set(index: usize) -> (r: LegSet)
    ensures
        r == set_of(index as int),
{
    if index % 2 == 0 {
        LegSet::A
    } else {
        LegSet::B
    }
}

/// The indices of the legs of `set`, in increasing order.
pub open spec fn members(set: LegSet) -> Seq<usize> {
    Seq::new(
        (NUM_LEGS / 2) as nat,
        |k: int|
            (2 * k + if set == LegSet::A {
                0int
            } else {
                1int
            }) as usize,
    )
}

/// Lists the legs of one set, so that the host can retarget exactly those.
pub fn legs_of(set: LegSet) -> (r: Vec<usize>)
    ensures
        r@ == members(set),
        forall|k: int| 0 <= k < r@.len() ==> r@[k] < NUM_LEGS && set_of(r@[k] as int) == set,
{
    let first: usize = match set {
        LegSet::A => 0,
        LegSet::B => 1,
    };
    let mut r: Vec<usize> = Vec::new();
    let mut i: usize = first;
    while i < NUM_LEGS
        invariant
            first < 2,
            first == 0 <==> set == LegSet::A,
            i % 2 == first,
            i < NUM_LEGS + 2,
            r@.len() == i / 2,
            forall|k: int| 0 <= k < r@.len() ==> r@[k] == 2 * k + first,
        decreases NUM_LEGS + 2 - i,
    {
        r.push(i);
        i = i + 2;
    }
    assert(r@ =~= members(set));
    r
}

/// What the coordinator reads of one leg on one tick, as measured by the
/// host's geometry: whether the leg's foot arc has finished (`phase == 1`)
/// and whether the leg is strained enough to want a new foothold.
#[derive(Clone, Copy, Debug, PartialEq, Eq, Structural)]
pub struct LegReport {
    pub settled: bool,
    pub wants_to_move: bool,
}

/// Some leg of `set` wants a new foothold.
pub open spec fn any_wants(reports: Seq<LegReport>, set: LegSet) -> bool {
    exists|i: int| 0 <= i < reports.len() && set_of(i) == set && #[trigger] reports[i].wants_to_move
}

/// Every leg of `set` has finished its foot arc.
pub open spec fn all_settled(reports: Seq<LegReport>, set: LegSet) -> bool {
    forall|i: int| 0 <= i < reports.len() && set_of(i) == set ==> #[trigger] reports[i].settled
}

/// Whether some leg of `set` wants to move.
pub fn set_wants_to_move(reports: &[LegReport; NUM_LEGS], set: LegSet) -> (r: bool)
    ensures
        r == any_wants(reports@, set),
{
    let mut i: usize = 0;
    while i < NUM_LEGS
        invariant
            i <= NUM_LEGS,
            reports@.len() == NUM_LEGS,
            forall|j: int| 0 <= j < i && set_of(j) == set ==> !(#[trigger] reports@[j]).wants_to_move,
        decreases NUM_LEGS - i,
    {
        if leg_set(i) == set && reports[i].wants_to_move {
            return true;
        }
        i = i + 1;
    }
    false
}

/// Whether every leg of `set` has settled.
pub fn set_settled(reports: &[LegReport; NUM_LEGS], set: LegSet) -> (r: bool)
    ensures
        r == all_settled(reports@, set),
{
    let mut i: usize = 0;
    while i < NUM_LEGS
        invariant
            i <= NUM_LEGS,
            reports@.len() == NUM_LEGS,
            forall|j: int| 0 <= j < i && set_of(j) == set ==> (#[trigger] reports@[j]).settled,
        decreases NUM_LEGS - i,
    {
        if leg_set(i) == set && !reports[i].settled {
            assert(!reports@[i as int].settled);
            return false;
        }
        i = i + 1;
    }
    true
}

/// Whether one of the sets is lifting its feet.
#[derive(Clone, Copy, Debug, PartialEq, Eq, Structural)]
pub enum GaitState {
    Idle,
    Repositioning(LegSet),
}

/// The coordinator's bookkeeping for one creature.
///
/// `priority` names the set that may start again right after a set has
/// settled; `just_moved` is raised when a set settles and cleared on every
/// tick on which no set starts or finishes.
#[derive(Clone, Copy, Debug, PartialEq, Eq, Structural)]
pub struct Gait {
    pub state: GaitState,
    pub priority: LegSet,
    pub just_moved: bool,
}

/// `set` may start from an idle gait: it has priority, or no set has just
/// settled.
pub open spec fn may_start(g: Gait, set: LegSet) -> bool {
    g.priority == set || !g.just_moved
}

/// One tick of the coordinator: the next bookkeeping, and the set that is
/// to be given new footholds on this tick, if any.
pub open spec fn next(g: Gait, reports: Seq<LegReport>) -> (Gait, Option<LegSet>) {
    match g.state {
        GaitState::Repositioning(s) if all_settled(reports, s) => (
            Gait { state: GaitState::Idle, priority: g.priority.flipped(), just_moved: true },
            None,
        ),
        GaitState::Idle if any_wants(reports, LegSet::A) && may_start(g, LegSet::A) => (
            Gait { state: GaitState::Repositioning(LegSet::A), ..g },
            Some(LegSet::A),
        ),
        GaitState::Idle if any_wants(reports, LegSet::B) && may_start(g, LegSet::B) => (
            Gait { state: GaitState::Repositioning(LegSet::B), ..g },
            Some(LegSet::B),
        ),
        _ => (Gait { just_moved: false, ..g }, None),
    }
}

impl Gait {
    /// A creature at spawn: no set moving, `B` holding priority.
    pub fn new() -> (r: Gait)
        ensures
            r == (Gait { state: GaitState::Idle, priority: LegSet::B, just_moved: false }),
    {
        Gait { state: GaitState::Idle, priority: LegSet::B, just_moved: false }
    }

    /// Runs the coordinator for one tick on the legs' reports and returns the
    /// set whose legs are to be given new footholds now, if any.
    pub fn coordinate(&mut self, reports: &[LegReport; NUM_LEGS]) -> (r: Option<LegSet>)
        ensures
            (*final(self), r) == next(*old(self), reports@),
    {
        match self.state {
            GaitState::Repositioning(s) => {
                if set_settled(reports, s) {
                    self.state = GaitState::Idle;
                    self.priority = self.priority.other();
                    self.just_moved = true;
                    return None;
                }
            },
            GaitState::Idle => {
                if set_wants_to_move(reports, LegSet::A) && (self.priority == LegSet::A
                    || !self.just_moved) {
                    self.state = GaitState::Repositioning(LegSet::A);
                    return Some(LegSet::A);
                }
                if set_wants_to_move(reports, LegSet::B) && (self.priority == LegSet::B
                    || !self.just_moved) {
                    self.state = GaitState::Repositioning(LegSet::B);
                    return Some(LegSet::B);
                }
            },
        }
        self.just_moved = false;
        None
    }
}

/// A tick on which the moving set finishes: every one of its legs has settled.
pub open spec fn completes(g: Gait, reports: Seq<LegReport>) -> bool {
    match g.state {
        GaitState::Repositioning(s) => all_settled(reports, s),
        GaitState::Idle => false,
    }
}

/// The bookkeeping after running the coordinator on each tick's reports in turn.
pub open spec fn run(g: Gait, ticks: Seq<Seq<LegReport>>) -> Gait
    decreases ticks.len(),
{
    if ticks.len() == 0 {
        g
    } else {
        run(next(g, ticks[0]).0, ticks.drop_first())
    }
}

/// No leg of any set wants to move.
pub open spec fn at_rest(reports: Seq<LegReport>) -> bool {
    forall|i: int| 0 <= i < reports.len() ==> !(#[trigger] reports[i]).wants_to_move
}

/// Only one set moves at a time: new footholds are handed out only from an
/// idle gait, to one set, which is then the moving set; and a moving set is
/// never replaced by the other set without the gait passing through idle.
pub proof fn lemma_one_set_at_a_time(g: Gait, reports: Seq<LegReport>, s: LegSet, t: LegSet)
    ensures
        next(g, reports).1 == Some(s) ==> g.state == GaitState::Idle && next(g, reports).0.state
            == GaitState::Repositioning(s),
        g.state == GaitState::Repositioning(s) && next(g, reports).0.state
            == GaitState::Repositioning(t) ==> s == t && next(g, reports).1 == None::<LegSet>,
{
}

/// The priority flag toggles exactly on the ticks on which a moving set
/// finishes, and keeps its value on every other tick.
pub proof fn lemma_priority_toggles_on_completion(g: Gait, reports: Seq<LegReport>)
    ensures
        next(g, reports).0.priority == if completes(g, reports) {
            g.priority.flipped()
        } else {
            g.priority
        },
        completes(g, reports) ==> next(g, reports).0.state == GaitState::Idle
            && next(g, reports).0.just_moved,
{
}

/// The sets alternate while walking: after set `s` finishes, on ticks where
/// `s` is content and the other set wants to move, the next set to start is
/// the other one, within two ticks, with no further change of priority.
pub proof fn lemma_sets_alternate(
    g: Gait,
    s: LegSet,
    done: Seq<LegReport>,
    first: Seq<LegReport>,
    second: Seq<LegReport>,
)
    requires
        g.state == GaitState::Repositioning(s),
        all_settled(done, s),
        !any_wants(first, s),
        any_wants(first, s.flipped()),
        !any_wants(second, s),
        any_wants(second, s.flipped()),
    ensures
        ({
            let g1 = next(g, done).0;
            let (g2, issued1) = next(g1, first);
            let (g3, issued2) = next(g2, second);
            &&& g1.state == GaitState::Idle
            &&& g1.priority == g.priority.flipped()
            &&& issued1 == Some(s.flipped()) || (issued1 == None::<LegSet> && g2.priority
                == g1.priority && issued2 == Some(s.flipped()))
        }),
{
}

/// A creature whose legs are all at rest never starts repositioning: an idle
/// gait stays idle over any number of such ticks.
pub proof fn lemma_rest_stays_idle(g: Gait, ticks: Seq<Seq<LegReport>>)
    requires
        g.state == GaitState::Idle,
        forall|k: int| 0 <= k < ticks.len() ==> at_rest(#[trigger] ticks[k]),
    ensures
        run(g, ticks).state == GaitState::Idle,
        ticks.len() > 0 ==> !run(g, ticks).just_moved,
        run(g, ticks).priority == g.priority,
    decreases ticks.len(),
{
    if ticks.len() > 0 {
        let r = ticks[0];
        assert(at_rest(r));
        assert(!any_wants(r, LegSet::A));
        assert(!any_wants(r, LegSet::B));
        let rest = ticks.drop_first();
        assert forall|k: int| 0 <= k < rest.len() implies at_rest(#[trigger] rest[k]) by {
            assert(rest[k] == ticks[k + 1]);
        }
        lemma_rest_stays_idle(next(g, r).0, rest);
    }
}

/// How many times the priority flag changes over a run.
pub open spec fn priority_toggles(g: Gait, ticks: Seq<Seq<LegReport>>) -> nat
    decreases ticks.len(),
{
    if ticks.len() == 0 {
        0
    } else {
        let g1 = next(g, ticks[0]).0;
        (if g1.priority != g.priority {
            1nat
        } else {
            0nat
        }) + priority_toggles(g1, ticks.drop_first())
    }
}

/// How many repositionings finish over a run.
pub open spec fn completions(g: Gait, ticks: Seq<Seq<LegReport>>) -> nat
    decreases ticks.len(),
{
    if ticks.len() == 0 {
        0
    } else {
        (if completes(g, ticks[0]) {
            1nat
        } else {
            0nat
        }) + completions(next(g, ticks[0]).0, ticks.drop_first())
    }
}

/// The sets handed new footholds over a run, in order.
pub open spec fn starts(g: Gait, ticks: Seq<Seq<LegReport>>) -> Seq<LegSet>
    decreases ticks.len(),
{
    if ticks.len() == 0 {
        Seq::empty()
    } else {
        let (g1, issued) = next(g, ticks[0]);
        match issued {
            Some(s) => seq![s].add(starts(g1, ticks.drop_first())),
            None => starts(g1, ticks.drop_first()),
        }
    }
}

/// Input of a creature walking at constant speed: on every tick, the set that
/// was last given footholds (`last` at first) has its feet where it wants them.
pub open spec fn walking(g: Gait, last: LegSet, ticks: Seq<Seq<LegReport>>) -> bool
    decreases ticks.len(),
{
    if ticks.len() == 0 {
        true
    } else {
        let (g1, issued) = next(g, ticks[0]);
        &&& !any_wants(ticks[0], last)
        &&& walking(
            g1,
            match issued {
                Some(s) => s,
                None => last,
            },
            ticks.drop_first(),
        )
    }
}

/// Sets that take turns, starting with the set other than `last`.
pub open spec fn alternating(last: LegSet, sets: Seq<LegSet>) -> bool {
    forall|k: int|
        0 <= k < sets.len() ==> #[trigger] sets[k] == if k % 2 == 0 {
            last.flipped()
        } else {
            last
        }
}

/// Over any run, the priority flag toggles exactly once per finished
/// repositioning.
pub proof fn lemma_priority_toggles_once_per_cycle(g: Gait, ticks: Seq<Seq<LegReport>>)
    ensures
        priority_toggles(g, ticks) == completions(g, ticks),
    decreases ticks.len(),
{
    if ticks.len() > 0 {
        lemma_priority_toggles_on_completion(g, ticks[0]);
        lemma_priority_toggles_once_per_cycle(next(g, ticks[0]).0, ticks.drop_first());
    }
}

/// While walking, `A` and `B` take turns as the moving set: the sets given
/// footholds over the run alternate, beginning with the set that did not
/// move last.
pub proof fn lemma_walking_sets_alternate(g: Gait, last: LegSet, ticks: Seq<Seq<LegReport>>)
    requires
        walking(g, last, ticks),
    ensures
        alternating(last, starts(g, ticks)),
    decreases ticks.len(),
{
    if ticks.len() > 0 {
        let (g1, issued) = next(g, ticks[0]);
        let rest = ticks.drop_first();
        match issued {
            Some(s) => {
                assert(s == last.flipped());
                lemma_walking_sets_alternate(g1, s, rest);
                let tail = starts(g1, rest);
                let all = seq![s].add(tail);
                assert(starts(g, ticks) == all);
                assert forall|k: int| 0 <= k < all.len() implies #[trigger] all[k] == if k % 2
                    == 0 {
                    last.flipped()
                } else {
                    last
                } by {
                    if k > 0 {
                        assert(all[k] == tail[k - 1]);
                    }
                }
            },
            None => {
                lemma_walking_sets_alternate(g1, last, rest);
            },
        }
    }
}

} // verus!
