use vstd::prelude::*;

verus! {

/// Target distance, in metres, at which the live calculator starts.
pub const INITIAL_TARGET_DISTANCE: u32 = 10000;

/// How far, in metres, the target moves in before each retry of the search.
pub const SEARCH_STEP: u32 = 200;

/// What the search asks for after seeing one simulation outcome.
#[derive(Clone, Copy, Debug, PartialEq, Eq, Structural)]
pub enum SearchStep {
    /// Run the simulation again with the target at this distance.
    Simulate(u32),
    /// The last simulation hit: the search is over.
    Splashed,
    /// The target would reach the launch point: the search gives up.
    Exhausted,
}

/// The step that follows a simulation at target distance `distance`.
pub open spec fn next_step(distance: int, splashed: bool) -> SearchStep {
    if splashed {
        SearchStep::Splashed
    } else if distance <= SEARCH_STEP {
        SearchStep::Exhausted
    } else {
        SearchStep::Simulate((distance - SEARCH_STEP) as u32)
    }
}

/// A backward search for the target distance at which a missile splashes: after
/// each miss the target moves in by `SEARCH_STEP`, until a hit or until the
/// target would reach the launch point.
#[derive(Debug)]
pub struct SplashSearch {
    distance_to_target: u32,
}

impl SplashSearch {
    /// The target distance of the simulation the search is waiting on.
    pub closed spec fn distance(&self) -> int {
        self.distance_to_target as int
    }

    /// A search whose first simulation puts the target at `distance_to_target`.
    pub fn new(distance_to_target: u32) -> (r: SplashSearch)
        ensures
            r.distance() == distance_to_target,
    {
        SplashSearch { distance_to_target }
    }

    /// The target distance of the simulation the search is waiting on.
    pub fn distance_to_target(&self) -> (r: u32)
        ensures
            r == self.distance(),
    {
        self.distance_to_target
    }

    /// Takes the outcome of the simulation at the current target distance and
    /// says what to do next. On a miss the target moves in by exactly
    /// `SEARCH_STEP`, unless that would bring it to zero or below.
    pub fn observe(&mut self, splashed: bool) -> (r: SearchStep)
        ensures
            r == next_step(old(self).distance(), splashed),
            r matches SearchStep::Simulate(d) ==> final(self).distance() == d,
            !(r is Simulate) ==> final(self).distance() == old(self).distance(),
    {
        if splashed {
            SearchStep::Splashed
        } else if self.distance_to_target <= SEARCH_STEP {
            SearchStep::Exhausted
        } else {
            self.distance_to_target = self.distance_to_target - SEARCH_STEP;
            SearchStep::Simulate(self.distance_to_target)
        }
    }
}

/// The target distances at which the simulator is run, in order, when the first
/// run is at `distance` and the runs end with the outcomes in `outcomes`, one per
/// run (outcomes past the last run are never seen).
pub open spec fn search_runs(distance: int, outcomes: Seq<bool>) -> Seq<int>
    decreases outcomes.len(),
{
    if outcomes.len() == 0 {
        seq![]
    } else {
        match next_step(distance, outcomes[0]) {
            SearchStep::Simulate(d) => seq![distance] + search_runs(d as int, outcomes.skip(1)),
            _ => seq![distance],
        }
    }
}

/// Along any run of the search each simulation puts the target exactly
/// `SEARCH_STEP` closer than the one before, always beyond the launch point, and
/// once a simulation has hit no further simulation is run.
pub proof fn lemma_search_runs(distance: int, outcomes: Seq<bool>)
    requires
        0 < distance <= u32::MAX,
    ensures
        search_runs(distance, outcomes).len() <= outcomes.len(),
        outcomes.len() > 0 ==> search_runs(distance, outcomes)[0] == distance,
        forall|k: int|
            0 <= k < search_runs(distance, outcomes).len() ==> search_runs(distance, outcomes)[k]
                > 0,
        forall|k: int|
            0 < k < search_runs(distance, outcomes).len() ==> #[trigger] search_runs(
                distance,
                outcomes,
            )[k] == search_runs(distance, outcomes)[k - 1] - SEARCH_STEP,
        forall|k: int|
            0 <= k < outcomes.len() && outcomes[k] ==> search_runs(distance, outcomes).len() <= k
                + 1,
    decreases outcomes.len(),
{
    if outcomes.len() > 0 {
        if let SearchStep::Simulate(d) = next_step(distance, outcomes[0]) {
            let rest = outcomes.skip(1);
            lemma_search_runs(d as int, rest);
            let runs = search_runs(distance, outcomes);
            let tail = search_runs(d as int, rest);
            assert(runs == seq![distance] + tail);
            assert forall|k: int| 0 < k < runs.len() implies #[trigger] runs[k] == runs[k - 1]
                - SEARCH_STEP by {
                assert(runs[k] == tail[k - 1]);
                if k > 1 {
                    assert(runs[k - 1] == tail[k - 2]);
                }
            }
            assert forall|k: int| 0 <= k < outcomes.len() && outcomes[k] implies runs.len() <= k + 1 by {
                if k > 0 {
                    assert(rest[k - 1] == outcomes[k]);
                }
            }
        }
    }
}

/// Why the live calculator could not take a request.
#[derive(Clone, Copy, Debug, PartialEq, Eq, Structural)]
pub enum CalcError {
    /// The selected missile is not in the catalog.
    MissileIndex,
}

/// The launch that the live calculator simulates for one request; the start and
/// target velocity, both the requested speed in metres per second, are left to
/// the caller.
#[derive(Debug)]
pub struct LivePlan {
    pub missile_index: usize,
    pub altitude: u32,
    pub surface_launch: bool,
    pub target_distance: u32,
    /// The splash search to drive, where one was asked for.
    pub search: Option<SplashSearch>,
}

/// Plans one request of the live calculator: an air launch at the given altitude
/// against a target at `INITIAL_TARGET_DISTANCE`, with a splash search from that
/// distance where `want_splash` holds. A missile index outside a catalog of
/// `catalog_len` records is an error.
pub fn plan_live(catalog_len: usize, missile_index: usize, altitude: u32, want_splash: bool) -> (r:
    Result<LivePlan, CalcError>)
    ensures
        missile_index >= catalog_len <==> r == Err::<LivePlan, CalcError>(CalcError::MissileIndex),
        r matches Ok(p) ==> {
            &&& p.missile_index == missile_index
            &&& p.altitude == altitude
            &&& !p.surface_launch
            &&& p.target_distance == INITIAL_TARGET_DISTANCE
            &&& p.search is Some <==> want_splash
            &&& p.search matches Some(s) ==> s.distance() == INITIAL_TARGET_DISTANCE
        },
{
    if missile_index >= catalog_len {
        return Err(CalcError::MissileIndex);
    }
    let search = if want_splash {
        Some(SplashSearch::new(INITIAL_TARGET_DISTANCE))
    } else {
        None
    };
    Ok(
        LivePlan {
            missile_index,
            altitude,
            surface_launch: false,
            target_distance: INITIAL_TARGET_DISTANCE,
            search,
        },
    )
}

/// What the live calculator shows for the splash point.
#[derive(Debug)]
pub enum SplashAnswer {
    /// No search was asked for.
    NotRequested,
    /// The search hit; the rounded splash distance as text.
    At(String),
    /// The search gave up without a hit.
    NotFound,
}

/// The text shown for a splash answer.
pub open spec fn answer_text(a: SplashAnswer) -> Seq<char> {
    match a {
        SplashAnswer::NotRequested => "-"@,
        SplashAnswer::At(s) => s@,
        SplashAnswer::NotFound => "no splash found"@,
    }
}

impl SplashAnswer {
    /// The text shown for this answer: `-` where no search was asked for.
    pub fn text(&self) -> (r: String)
        ensures
            r@ == answer_text(*self),
    {
        match self {
            SplashAnswer::NotRequested => String::from_str("-"),
            SplashAnswer::At(s) => s.clone(),
            SplashAnswer::NotFound => String::from_str("no splash found"),
        }
    }
}

} // verus!
