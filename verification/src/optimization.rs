//! The decisions of the mean-variance optimizer: which method a configuration
//! asks for, which blends the near-optimal search tries and which of them it
//! keeps, when a weight vector counts as normalised, and how the points of
//! the leveraged frontier are put together.

use vstd::prelude::*;
use crate::config::{reads_as, ConfigError, PortofolioOptimization};
use crate::error::PortfolioError;
use crate::scalar::{Scalar, ONE_BITS, TOLERANCE_BITS, ZERO_BITS};

verus! {

/// The method by which the optimal risky portfolio is found.
#[derive(Clone, Copy, Debug, PartialEq, Eq, Structural)]
pub enum MvoOptMethod {
    /// The closed form that maximizes the risk-adjusted return, with risk
    /// aversion `tau`.
    RiskAdjusted { tau: Scalar },
    /// The search for the least concentrated blend that keeps the share
    /// `theta` of the utility of the mean-variance portfolio.
    NearOptimal { tau: Scalar, theta: Scalar },
}

impl MvoOptMethod {
    /// The method that a configuration names. `risk-adjusted` takes its first
    /// parameter as `tau`; `near-optimal` takes its first two as `tau` and
    /// `theta`. Any other name is an error, and so is a parameter list that
    /// is too short.
    pub open spec fn named_by(config: PortofolioOptimization) -> Result<MvoOptMethod, ConfigError> {
        if config.sub_method@ == "risk-adjusted"@ {
            if config.params@.len() >= 1 {
                Ok(MvoOptMethod::RiskAdjusted { tau: config.params@[0] })
            } else {
                Err(ConfigError::MissingParameter { needed: 1, given: config.params@.len() as usize })
            }
        } else if config.sub_method@ == "near-optimal"@ {
            if config.params@.len() >= 2 {
                Ok(MvoOptMethod::NearOptimal { tau: config.params@[0], theta: config.params@[1] })
            } else {
                Err(ConfigError::MissingParameter { needed: 2, given: config.params@.len() as usize })
            }
        } else {
            Err(ConfigError::UnknownMethod)
        }
    }

    /// Whether the parameters lie where the method has a meaning: a risk
    /// aversion above zero, and a share of utility above zero and not above
    /// one.
    pub open spec fn spec_in_range(self) -> bool {
        match self {
            MvoOptMethod::RiskAdjusted { tau } => tau.spec_gt(Scalar { bits: ZERO_BITS }),
            MvoOptMethod::NearOptimal { tau, theta } => {
                &&& tau.spec_gt(Scalar { bits: ZERO_BITS })
                &&& theta.spec_gt(Scalar { bits: ZERO_BITS })
                &&& theta.spec_le(Scalar { bits: ONE_BITS })
            },
        }
    }

    #[verifier::when_used_as_spec(spec_in_range)]
    pub fn in_range(self) -> (r: bool)
        ensures
            r == self.spec_in_range(),
    {
        match self {
            MvoOptMethod::RiskAdjusted { tau } => tau.gt(Scalar::zero()),
            MvoOptMethod::NearOptimal { tau, theta } => {
                tau.gt(Scalar::zero()) && theta.gt(Scalar::zero()) && theta.le(Scalar::one())
            },
        }
    }

    /// Reads the method off a configuration.
    pub fn from_config(portofolio_optimization_config: &PortofolioOptimization) -> (r: Result<
        MvoOptMethod,
        ConfigError,
    >)
        ensures
            r == Self::named_by(*portofolio_optimization_config),
    {
        let config = portofolio_optimization_config;
        let given = config.params.len();
        if reads_as(&config.sub_method, "risk-adjusted") {
            if given >= 1 {
                Ok(MvoOptMethod::RiskAdjusted { tau: config.params[0] })
            } else {
                Err(ConfigError::MissingParameter { needed: 1, given })
            }
        } else if reads_as(&config.sub_method, "near-optimal") {
            if given >= 2 {
                Ok(MvoOptMethod::NearOptimal { tau: config.params[0], theta: config.params[1] })
            } else {
                Err(ConfigError::MissingParameter { needed: 2, given })
            }
        } else {
            Err(ConfigError::UnknownMethod)
        }
    }
}

/// The number of periods that a year is taken to have when an annual rate
/// is turned into a rate per period, whatever the spacing of the
/// observations.
pub const PERIODS_PER_YEAR: usize = 252;

/// The pattern of the leverage of the last frontier point, which is two:
/// the frontier runs from no leverage to this one in equal steps.
pub const MAX_LEVERAGE_BITS: u64 = 0x4000_0000_0000_0000;

/// The number of steps into which a sweep of the near-optimal search
/// divides the range of the mixing share.
pub const MIXING_STEPS: usize = 100;

/// The number of blends that one sweep of the near-optimal search tries:
/// the mixing share runs over 0, 1/100, 2/100, up to 1.
pub const STEPS_PER_SWEEP: usize = 101;

/// The number of blends that the whole search tries, both sweeps together.
pub const CANDIDATE_COUNT: usize = 202;

/// The direction of a sweep of the near-optimal search. With `alpha` the
/// mixing share of a step, the first sweep gives `1 - alpha` to the
/// equal-weight portfolio and `alpha` to the mean-variance portfolio; the
/// second gives `alpha` to the equal-weight portfolio and `1 - alpha` to the
/// mean-variance portfolio.
#[derive(Clone, Copy, Debug, PartialEq, Eq, Structural)]
pub enum Sweep {
    TowardMeanVariance,
    TowardEqualWeight,
}

/// One blend of the search: the sweep it belongs to and its step, which
/// stands for the mixing share `step / MIXING_STEPS`.
#[derive(Clone, Copy, Debug, PartialEq, Eq, Structural)]
pub struct BlendStep {
    pub sweep: Sweep,
    pub step: usize,
}

/// The blend that the search tries in place `k`, counted from 0: the first
/// sweep from step 0 to step 100, then the second sweep likewise.
pub open spec fn blend_step_at(k: int) -> BlendStep {
    if k < STEPS_PER_SWEEP {
        BlendStep { sweep: Sweep::TowardMeanVariance, step: k as usize }
    } else {
        BlendStep { sweep: Sweep::TowardEqualWeight, step: (k - STEPS_PER_SWEEP) as usize }
    }
}

/// The blend in place `k` of the search, or nothing when the search has no
/// such place.
pub fn blend_step(k: usize) -> (r: Option<BlendStep>)
    ensures
        k < CANDIDATE_COUNT ==> r == Some(blend_step_at(k as int)),
        k >= CANDIDATE_COUNT ==> r is None,
        r matches Some(b) ==> b.step <= MIXING_STEPS,
{
    if k < STEPS_PER_SWEEP {
        Some(BlendStep { sweep: Sweep::TowardMeanVariance, step: k })
    } else if k < CANDIDATE_COUNT {
        Some(BlendStep { sweep: Sweep::TowardEqualWeight, step: k - STEPS_PER_SWEEP })
    } else {
        None
    }
}

/// What the search needs to know of one blend: its mean-variance utility,
/// the distance of the sum of its weights from one, and its concentration
/// (the sum of its squared weights).
#[derive(Clone, Copy, Debug, PartialEq, Eq, Structural)]
pub struct Candidate {
    pub utility: Scalar,
    pub weight_sum_gap: Scalar,
    pub concentration: Scalar,
}

impl Candidate {
    /// A blend qualifies when its utility is at least `floor` and its
    /// weights sum to one within the tolerance.
    pub open spec fn spec_qualifies(self, floor: Scalar) -> bool {
        self.utility.spec_ge(floor) && self.weight_sum_gap.spec_lt(Scalar { bits: TOLERANCE_BITS })
    }

    /// A blend improves on a concentration `bound` when it qualifies and is
    /// less concentrated than the bound.
    pub open spec fn spec_improves_on(self, floor: Scalar, bound: Scalar) -> bool {
        self.spec_qualifies(floor) && self.concentration.spec_lt(bound)
    }

    #[verifier::when_used_as_spec(spec_qualifies)]
    pub fn qualifies(self, floor: Scalar) -> (r: bool)
        ensures
            r == self.spec_qualifies(floor),
    {
        self.utility.ge(floor) && self.weight_sum_gap.lt(Scalar::tolerance())
    }

    #[verifier::when_used_as_spec(spec_improves_on)]
    pub fn improves_on(self, floor: Scalar, bound: Scalar) -> (r: bool)
        ensures
            r == self.spec_improves_on(floor, bound),
    {
        self.qualifies(floor) && self.concentration.lt(bound)
    }
}

/// Whether `k` is the blend that the search keeps: the first, among the
/// blends that improve on the concentration `initial` of the mean-variance
/// portfolio, of those with the least concentration.
pub open spec fn is_kept_blend(
    candidates: Seq<Candidate>,
    initial: Scalar,
    floor: Scalar,
    k: int,
) -> bool {
    &&& 0 <= k < candidates.len()
    &&& candidates[k].spec_improves_on(floor, initial)
    &&& forall|j: int|
        0 <= j < candidates.len() && (#[trigger] candidates[j]).spec_improves_on(floor, initial)
            ==> candidates[k].concentration.rank() <= candidates[j].concentration.rank()
    &&& forall|j: int|
        0 <= j < k && (#[trigger] candidates[j]).spec_improves_on(floor, initial)
            ==> candidates[k].concentration.rank() < candidates[j].concentration.rank()
}

/// Whether no blend improves on the concentration `initial`.
pub open spec fn no_blend_improves(
    candidates: Seq<Candidate>,
    initial: Scalar,
    floor: Scalar,
) -> bool {
    forall|j: int|
        0 <= j < candidates.len() ==> !(#[trigger] candidates[j]).spec_improves_on(floor, initial)
}

/// The state of the search between two blends: the blend kept so far, if
/// any, and the concentration that the next blend has to beat.
#[derive(Clone, Copy, Debug, PartialEq, Eq, Structural)]
pub struct Search {
    pub kept: Option<usize>,
    pub bound: Scalar,
}

impl Search {
    /// Whether the state is the one reached after the first `seen` blends of
    /// `candidates`.
    pub open spec fn reached_after(
        self,
        candidates: Seq<Candidate>,
        initial: Scalar,
        floor: Scalar,
        seen: int,
    ) -> bool {
        &&& 0 <= seen <= candidates.len()
        &&& match self.kept {
            None => self.bound == initial && no_blend_improves(
                candidates.take(seen),
                initial,
                floor,
            ),
            Some(k) => self.bound == candidates[k as int].concentration && is_kept_blend(
                candidates.take(seen),
                initial,
                floor,
                k as int,
            ),
        }
    }

    /// The state before any blend was tried: nothing is kept, and the
    /// concentration to beat is that of the mean-variance portfolio.
    pub fn start(initial: Scalar) -> (r: Search)
        ensures
            r.kept is None,
            r.bound == initial,
    {
        Search { kept: None, bound: initial }
    }

    /// The state after blend `index` was tried: the blend is kept when it
    /// qualifies and is less concentrated than everything kept before it.
    pub fn consider(self, index: usize, candidate: Candidate, floor: Scalar) -> (r: Search)
        ensures
            candidate.spec_improves_on(floor, self.bound) ==> r.kept == Some(index) && r.bound
                == candidate.concentration,
            !candidate.spec_improves_on(floor, self.bound) ==> r == self,
    {
        if candidate.improves_on(floor, self.bound) {
            Search { kept: Some(index), bound: candidate.concentration }
        } else {
            self
        }
    }
}

/// Runs the search over the blends in the order given and returns the place
/// of the blend it keeps. `initial` is the concentration of the mean-variance
/// portfolio and `floor` the utility that a blend has to reach. With no
/// blend kept, the mean-variance portfolio itself is the result.
pub fn select_blend(candidates: &Vec<Candidate>, initial: Scalar, floor: Scalar) -> (r: Option<
    usize,
>)
    ensures
        match r {
            Some(k) => is_kept_blend(candidates@, initial, floor, k as int),
            None => no_blend_improves(candidates@, initial, floor),
        },
{
    let mut search = Search::start(initial);
    let mut i: usize = 0;
    while i < candidates.len()
        invariant
            search.reached_after(candidates@, initial, floor, i as int),
        decreases candidates.len() - i,
    {
        search = search.consider(i, candidates[i], floor);
        proof {
            let seen = candidates@.take(i as int);
            let next = candidates@.take(i + 1);
            assert(forall|j: int| 0 <= j < i ==> next[j] == seen[j]);
            assert(next[i as int] == candidates@[i as int]);
        }
        i += 1;
    }
    assert(candidates@.take(i as int) == candidates@);
    search.kept
}

/// A blend that the search tries: its weights, and what the search needs to
/// know of it.
#[derive(Clone, Debug)]
pub struct Blend {
    pub weights: Vec<Scalar>,
    pub measures: Candidate,
}

/// What the search needs to know of each of `blends`, blend by blend.
pub open spec fn measures_of(blends: Seq<Blend>) -> Seq<Candidate> {
    Seq::new(blends.len(), |k: int| blends[k].measures)
}

/// The weights that the near-optimal method settles on: those of the blend
/// that the search keeps, and those of the mean-variance portfolio where the
/// search keeps none.
pub open spec fn is_near_optimal(
    weights: Seq<Scalar>,
    mean_variance: Seq<Scalar>,
    blends: Seq<Blend>,
    initial: Scalar,
    floor: Scalar,
) -> bool {
    if no_blend_improves(measures_of(blends), initial, floor) {
        weights == mean_variance
    } else {
        exists|k: int| #[trigger]
            is_kept_blend(measures_of(blends), initial, floor, k) && weights == blends[k].weights@
    }
}

/// The weights that the near-optimal method settles on. `mean_variance` are
/// the weights of the mean-variance portfolio, `initial` is its
/// concentration, `floor` is the utility that a blend has to reach, and
/// `blends` are the blends in the order in which the search tries them.
pub fn near_optimal_weights(
    mean_variance: Vec<Scalar>,
    blends: &Vec<Blend>,
    initial: Scalar,
    floor: Scalar,
) -> (weights: Vec<Scalar>)
    ensures
        is_near_optimal(weights@, mean_variance@, blends@, initial, floor),
{
    let mut candidates: Vec<Candidate> = Vec::new();
    let mut i: usize = 0;
    while i < blends.len()
        invariant
            i <= blends@.len(),
            candidates@ == measures_of(blends@).take(i as int),
        decreases blends@.len() - i,
    {
        candidates.push(blends[i].measures);
        assert(candidates@ == measures_of(blends@).take(i + 1));
        i += 1;
    }
    assert(measures_of(blends@).take(i as int) == measures_of(blends@));
    match select_blend(&candidates, initial, floor) {
        Some(k) => {
            let kept = &blends[k].weights;
            let mut weights: Vec<Scalar> = Vec::new();
            let mut j: usize = 0;
            while j < kept.len()
                invariant
                    j <= kept@.len(),
                    weights@ == kept@.take(j as int),
                decreases kept@.len() - j,
            {
                weights.push(kept[j]);
                assert(weights@ == kept@.take(j + 1));
                j += 1;
            }
            assert(kept@.take(j as int) == kept@);
            assert(is_kept_blend(measures_of(blends@), initial, floor, k as int));
            weights
        },
        None => mean_variance,
    }
}

/// The inverse of the covariance matrix, where the routine that was asked
/// to invert the matrix found one. A matrix without an inverse ends the run:
/// the returns of the assets depend on one another, or there are fewer
/// periods than assets.
pub fn covariance_inverse(found: Option<Vec<Vec<Scalar>>>) -> (r: Result<
    Vec<Vec<Scalar>>,
    PortfolioError,
>)
    ensures
        match found {
            Some(inverse) => r == Ok::<Vec<Vec<Scalar>>, PortfolioError>(inverse),
            None => r == Err::<Vec<Vec<Scalar>>, PortfolioError>(PortfolioError::SingularCovariance),
        },
{
    match found {
        Some(inverse) => Ok(inverse),
        None => Err(PortfolioError::SingularCovariance),
    }
}

/// Accepts a weight vector whose sum lies within the tolerance of one.
/// `gap` is the distance of the sum from one. A gap that is not a number is
/// not within the tolerance.
pub fn check_normalization(gap: Scalar) -> (r: Result<(), PortfolioError>)
    ensures
        gap.spec_le(Scalar { bits: TOLERANCE_BITS }) ==> r is Ok,
        !gap.spec_le(Scalar { bits: TOLERANCE_BITS }) ==> r == Err::<(), PortfolioError>(
            PortfolioError::WeightNormalization { gap },
        ),
{
    if gap.le(Scalar::tolerance()) {
        Ok(())
    } else {
        Err(PortfolioError::WeightNormalization { gap })
    }
}

/// The number of equal leverage steps between the first and the last of
/// `n_points` frontier points. A frontier needs two points at least: with
/// fewer there is no step to divide the leverage range by.
pub fn frontier_intervals(n_points: usize) -> (r: Result<usize, PortfolioError>)
    ensures
        n_points >= 2 ==> r == Ok::<usize, PortfolioError>((n_points - 1) as usize),
        n_points < 2 ==> r == Err::<usize, PortfolioError>(
            PortfolioError::InvalidFrontierResolution { requested: n_points },
        ),
{
    if n_points < 2 {
        Err(PortfolioError::InvalidFrontierResolution { requested: n_points })
    } else {
        Ok(n_points - 1)
    }
}

/// One point of the leveraged frontier: the share left in the risk-free
/// asset, the weights of the risky assets, and the return, the standard
/// deviation and the Sharpe ratio of the whole.
#[derive(Clone, Debug)]
pub struct FrontierPoint {
    pub risk_free_weight: Scalar,
    pub risky_weights: Vec<Scalar>,
    pub expected_return: Scalar,
    pub portfolio_std: Scalar,
    pub sharpe_ratio: Scalar,
}

impl FrontierPoint {
    /// The Sharpe ratio of a frontier point at the given leverage:
    /// `excess_ratio`, the excess return over the standard deviation, where
    /// the leverage is above zero, and zero where it is not.
    pub open spec fn sharpe_at(leverage: Scalar, excess_ratio: Scalar) -> Scalar {
        if leverage.spec_gt(Scalar { bits: ZERO_BITS }) {
            excess_ratio
        } else {
            Scalar { bits: ZERO_BITS }
        }
    }

    /// Puts a frontier point together. At leverage zero nothing is at risk
    /// and the ratio of excess return to standard deviation is undefined, so
    /// the point's Sharpe ratio is zero there.
    pub fn new(
        leverage: Scalar,
        risk_free_weight: Scalar,
        risky_weights: Vec<Scalar>,
        expected_return: Scalar,
        portfolio_std: Scalar,
        excess_ratio: Scalar,
    ) -> (r: FrontierPoint)
        ensures
            r.risk_free_weight == risk_free_weight,
            r.risky_weights == risky_weights,
            r.expected_return == expected_return,
            r.portfolio_std == portfolio_std,
            r.sharpe_ratio == Self::sharpe_at(leverage, excess_ratio),
    {
        let sharpe_ratio = if leverage.gt(Scalar::zero()) {
            excess_ratio
        } else {
            Scalar::zero()
        };
        FrontierPoint { risk_free_weight, risky_weights, expected_return, portfolio_std, sharpe_ratio }
    }
}

/// What an optimization run hands on: the frontier, and the optimal risky
/// portfolio with its return, its standard deviation and its Sharpe ratio.
#[derive(Clone, Debug)]
pub struct OptimizationResults {
    pub frontier: Vec<FrontierPoint>,
    pub optimal_risky_portfolio: Vec<Scalar>,
    pub optimal_risky_return: Scalar,
    pub optimal_risky_std: Scalar,
    pub max_sharpe: Scalar,
}

/// Whether every one of `points` has `width` risky weights.
pub open spec fn points_have_width(points: Seq<FrontierPoint>, width: int) -> bool {
    forall|k: int| 0 <= k < points.len() ==> (#[trigger] points[k]).risky_weights@.len() == width
}

/// The place of the first of `points` that does not have `width` risky
/// weights.
pub open spec fn first_point_off_width(points: Seq<FrontierPoint>, width: int) -> int
    recommends
        !points_have_width(points, width),
    decreases points.len(),
{
    if points.len() == 0 {
        0
    } else if points_have_width(points.drop_last(), width) {
        points.len() - 1
    } else {
        first_point_off_width(points.drop_last(), width)
    }
}

proof fn lemma_first_point_off_width(points: Seq<FrontierPoint>, width: int, k: int)
    requires
        0 <= k < points.len(),
        points_have_width(points.take(k), width),
        points[k].risky_weights@.len() != width,
    ensures
        first_point_off_width(points, width) == k,
        !points_have_width(points, width),
    decreases points.len(),
{
    let shorter = points.drop_last();
    if k == points.len() - 1 {
        assert(shorter == points.take(k));
    } else {
        assert(shorter[k] == points[k]);
        assert(shorter.take(k) == points.take(k));
        lemma_first_point_off_width(shorter, width, k);
    }
}

impl OptimizationResults {
    /// Whether the parts fit together: the frontier has two points at least,
    /// and every point of it has one risky weight per weight of the optimal
    /// risky portfolio.
    pub open spec fn well_formed(&self) -> bool {
        &&& self.frontier@.len() >= 2
        &&& points_have_width(self.frontier@, self.optimal_risky_portfolio@.len() as int)
    }

    /// What is wrong with results that are not well formed: too few points,
    /// or else the first point with another number of weights.
    pub open spec fn shape_fault(candidate: OptimizationResults) -> PortfolioError {
        let n = candidate.optimal_risky_portfolio@.len();
        if candidate.frontier@.len() < 2 {
            PortfolioError::InvalidFrontierResolution {
                requested: candidate.frontier@.len() as usize,
            }
        } else {
            PortfolioError::DimensionMismatch {
                expected: n as usize,
                found: candidate.frontier@[first_point_off_width(
                    candidate.frontier@,
                    n as int,
                )].risky_weights@.len() as usize,
            }
        }
    }

    /// Puts the results together, if the parts fit.
    pub fn new(
        frontier: Vec<FrontierPoint>,
        optimal_risky_portfolio: Vec<Scalar>,
        optimal_risky_return: Scalar,
        optimal_risky_std: Scalar,
        max_sharpe: Scalar,
    ) -> (r: Result<OptimizationResults, PortfolioError>)
        ensures
            match r {
                Ok(results) => {
                    &&& results.well_formed()
                    &&& results.frontier == frontier
                    &&& results.optimal_risky_portfolio == optimal_risky_portfolio
                    &&& results.optimal_risky_return == optimal_risky_return
                    &&& results.optimal_risky_std == optimal_risky_std
                    &&& results.max_sharpe == max_sharpe
                },
                Err(error) => {
                    let candidate = OptimizationResults {
                        frontier,
                        optimal_risky_portfolio,
                        optimal_risky_return,
                        optimal_risky_std,
                        max_sharpe,
                    };
                    &&& !candidate.well_formed()
                    &&& error == Self::shape_fault(candidate)
                },
            },
    {
        if frontier.len() < 2 {
            return Err(PortfolioError::InvalidFrontierResolution { requested: frontier.len() });
        }
        let n = optimal_risky_portfolio.len();
        let mut k: usize = 0;
        while k < frontier.len()
            invariant
                k <= frontier@.len(),
                frontier@.len() >= 2,
                n == optimal_risky_portfolio@.len(),
                points_have_width(frontier@.take(k as int), n as int),
            decreases frontier@.len() - k,
        {
            if frontier[k].risky_weights.len() != n {
                proof {
                    lemma_first_point_off_width(frontier@, n as int, k as int);
                }
                return Err(
                    PortfolioError::DimensionMismatch {
                        expected: n,
                        found: frontier[k].risky_weights.len(),
                    },
                );
            }
            assert forall|j: int| 0 <= j < k + 1 implies (#[trigger] frontier@.take(
                k + 1,
            )[j]).risky_weights@.len() == n by {
                if j < k {
                    assert(frontier@.take(k as int)[j] == frontier@.take(k + 1)[j]);
                }
            }
            k += 1;
        }
        assert(frontier@.take(k as int) == frontier@);
        Ok(
            OptimizationResults {
                frontier,
                optimal_risky_portfolio,
                optimal_risky_return,
                optimal_risky_std,
                max_sharpe,
            },
        )
    }
}

/// The blend that the search keeps qualifies: its utility is at least the
/// floor and its weights sum to one within the tolerance. It is also less
/// concentrated than the mean-variance portfolio.
pub proof fn lemma_kept_blend_qualifies(
    candidates: Seq<Candidate>,
    initial: Scalar,
    floor: Scalar,
    k: int,
)
    requires
        is_kept_blend(candidates, initial, floor, k),
    ensures
        candidates[k].utility.spec_ge(floor),
        candidates[k].weight_sum_gap.spec_lt(Scalar { bits: TOLERANCE_BITS }),
        candidates[k].weight_sum_gap.spec_le(Scalar { bits: TOLERANCE_BITS }),
        candidates[k].concentration.spec_lt(initial),
        candidates[k].concentration.spec_le(initial),
{
}

/// The near-optimal method settles on one vector of weights only.
pub proof fn lemma_near_optimal_unique(
    first: Seq<Scalar>,
    second: Seq<Scalar>,
    mean_variance: Seq<Scalar>,
    blends: Seq<Blend>,
    initial: Scalar,
    floor: Scalar,
)
    requires
        is_near_optimal(first, mean_variance, blends, initial, floor),
        is_near_optimal(second, mean_variance, blends, initial, floor),
    ensures
        first == second,
{
    if !no_blend_improves(measures_of(blends), initial, floor) {
        let k1 = choose|k: int| #[trigger]
            is_kept_blend(measures_of(blends), initial, floor, k) && first == blends[k].weights@;
        let k2 = choose|k: int| #[trigger]
            is_kept_blend(measures_of(blends), initial, floor, k) && second == blends[k].weights@;
        lemma_kept_blend_unique(measures_of(blends), initial, floor, k1, k2);
    }
}

/// The search keeps one blend at most: which blend is kept depends on
/// nothing but the blends, the concentration to beat and the floor.
pub proof fn lemma_kept_blend_unique(
    candidates: Seq<Candidate>,
    initial: Scalar,
    floor: Scalar,
    first: int,
    second: int,
)
    requires
        is_kept_blend(candidates, initial, floor, first),
        is_kept_blend(candidates, initial, floor, second),
    ensures
        first == second,
{
}

/// Where one blend is kept, some blend improves on the mean-variance
/// portfolio; so the search keeps a blend or finds that none improves, never
/// both.
pub proof fn lemma_kept_or_none(candidates: Seq<Candidate>, initial: Scalar, floor: Scalar, k: int)
    requires
        is_kept_blend(candidates, initial, floor, k),
    ensures
        !no_blend_improves(candidates, initial, floor),
{
}

/// A frontier point without leverage has the Sharpe ratio zero, whatever
/// the ratio of excess return to standard deviation comes to there.
pub proof fn lemma_no_leverage_no_sharpe(leverage: Scalar, excess_ratio: Scalar)
    requires
        !leverage.spec_gt(Scalar { bits: ZERO_BITS }),
    ensures
        FrontierPoint::sharpe_at(leverage, excess_ratio) == (Scalar { bits: ZERO_BITS }),
{
}

} // verus!
