use vstd::prelude::*;

use crate::kd_tree::KDTree;
use crate::nearest_neighbour::{find_nearest_neighbour_naive, is_nearest, point_set};

verus! {

/// The ways in which a registration run can fail.
#[derive(Clone, Copy, Debug, PartialEq, Eq, Structural)]
pub enum ICPError {
    /// The source point cloud holds no point.
    SourceCloudEmpty,
    /// The target point cloud holds no point.
    TargetCloudEmpty,
    /// The iteration budget is zero.
    IterationBudgetIsZero,
    /// The interval threshold is at or below machine epsilon.
    IntervalThresholdTooLow,
    /// The absolute threshold is at or below machine epsilon, or not a number.
    AbsoluteThresholdTooLow,
    /// The correspondence search found no neighbour.
    NoNearestNeighbourFound,
    /// The iteration budget ran out before either convergence test held.
    DidNotConverge,
}

impl ICPError {
    /// A short description of the error.
    pub fn message(&self) -> (r: &'static str)
        ensures
            r@ == error_message(*self)@,
    {
        match self {
            ICPError::SourceCloudEmpty => "Source point cloud is empty",
            ICPError::TargetCloudEmpty => "Target point cloud is empty",
            ICPError::IterationBudgetIsZero => "Must have more than one iteration",
            ICPError::IntervalThresholdTooLow => "MSE interval threshold too low, convergence impossible",
            ICPError::AbsoluteThresholdTooLow => "Absolute MSE threshold too low, convergence impossible",
            ICPError::NoNearestNeighbourFound => "No nearest neighbour found",
            ICPError::DidNotConverge => "Could not converge",
        }
    }
}

/// The description of each error.
pub open spec fn error_message(e: ICPError) -> &'static str {
    match e {
        ICPError::SourceCloudEmpty => "Source point cloud is empty",
        ICPError::TargetCloudEmpty => "Target point cloud is empty",
        ICPError::IterationBudgetIsZero => "Must have more than one iteration",
        ICPError::IntervalThresholdTooLow => "MSE interval threshold too low, convergence impossible",
        ICPError::AbsoluteThresholdTooLow => "Absolute MSE threshold too low, convergence impossible",
        ICPError::NoNearestNeighbourFound => "No nearest neighbour found",
        ICPError::DidNotConverge => "Could not converge",
    }
}

/// The number of iterations a configuration allows unless told otherwise.
pub const DEFAULT_MAX_ITERATIONS: usize = 20;

/// Configuration of a registration run, over the scalar type `T` of its
/// thresholds.
#[derive(Clone, Copy, Debug)]
pub struct ICPConfiguration<T> {
    /// Whether to find neighbours with a k-d tree rather than an exhaustive scan.
    pub(crate) use_kd_tree: bool,
    /// The number of iterations before giving up.
    pub(crate) max_iterations: usize,
    /// When set, a run converges as soon as its error falls below this value.
    pub(crate) mse_absolute_threshold: Option<T>,
    /// A run converges once its error changes by less than this between two
    /// iterations; `None` stands for the default interval threshold of the
    /// scalar type.
    pub(crate) mse_interval_threshold: Option<T>,
}

impl<T: Copy> ICPConfiguration<T> {
    pub closed spec fn spec_use_kd_tree(&self) -> bool {
        self.use_kd_tree
    }

    pub closed spec fn spec_max_iterations(&self) -> usize {
        self.max_iterations
    }

    pub closed spec fn spec_mse_absolute_threshold(&self) -> Option<T> {
        self.mse_absolute_threshold
    }

    pub closed spec fn spec_mse_interval_threshold(&self) -> Option<T> {
        self.mse_interval_threshold
    }

    /// Returns a builder that starts from the default configuration: an
    /// exhaustive neighbour scan, [`DEFAULT_MAX_ITERATIONS`] iterations, no
    /// absolute threshold and the default interval threshold.
    pub fn builder() -> (r: ICPConfigurationBuilder<T>)
        ensures
            r.spec_config().spec_use_kd_tree() == false,
            r.spec_config().spec_max_iterations() == DEFAULT_MAX_ITERATIONS,
            r.spec_config().spec_mse_absolute_threshold().is_none(),
            r.spec_config().spec_mse_interval_threshold().is_none(),
    {
        ICPConfigurationBuilder {
            _internal: ICPConfiguration {
                use_kd_tree: false,
                max_iterations: DEFAULT_MAX_ITERATIONS,
                mse_absolute_threshold: None,
                mse_interval_threshold: None,
            },
        }
    }

    /// Whether neighbours are found with a k-d tree.
    pub fn use_kd_tree(&self) -> (r: bool)
        ensures
            r == self.spec_use_kd_tree(),
    {
        self.use_kd_tree
    }

    /// The iteration budget.
    pub fn max_iterations(&self) -> (r: usize)
        ensures
            r == self.spec_max_iterations(),
    {
        self.max_iterations
    }

    /// The absolute convergence threshold, if any.
    pub fn mse_absolute_threshold(&self) -> (r: Option<T>)
        ensures
            r == self.spec_mse_absolute_threshold(),
    {
        self.mse_absolute_threshold
    }

    /// The interval convergence threshold; `None` for the default.
    pub fn mse_interval_threshold(&self) -> (r: Option<T>)
        ensures
            r == self.spec_mse_interval_threshold(),
    {
        self.mse_interval_threshold
    }
}

/// A builder for [`ICPConfiguration`].
#[derive(Clone, Copy, Debug)]
pub struct ICPConfigurationBuilder<T> {
    _internal: ICPConfiguration<T>,
}

impl<T: Copy> ICPConfigurationBuilder<T> {
    /// The configuration that [`Self::build`] hands out.
    pub closed spec fn spec_config(&self) -> ICPConfiguration<T> {
        self._internal
    }

    /// A copy of the builder that finds neighbours with a k-d tree, or not.
    pub fn with_kd_tree(&self, use_kd_tree: bool) -> (r: Self)
        ensures
            r.spec_config().spec_use_kd_tree() == use_kd_tree,
            r.spec_config().spec_max_iterations() == self.spec_config().spec_max_iterations(),
            r.spec_config().spec_mse_absolute_threshold() == self.spec_config().spec_mse_absolute_threshold(),
            r.spec_config().spec_mse_interval_threshold() == self.spec_config().spec_mse_interval_threshold(),
    {
        Self { _internal: ICPConfiguration { use_kd_tree, ..self._internal } }
    }

    /// A copy of the builder with the given iteration budget.
    pub fn with_max_iterations(&self, max_iterations: usize) -> (r: Self)
        ensures
            r.spec_config().spec_use_kd_tree() == self.spec_config().spec_use_kd_tree(),
            r.spec_config().spec_max_iterations() == max_iterations,
            r.spec_config().spec_mse_absolute_threshold() == self.spec_config().spec_mse_absolute_threshold(),
            r.spec_config().spec_mse_interval_threshold() == self.spec_config().spec_mse_interval_threshold(),
    {
        Self { _internal: ICPConfiguration { max_iterations, ..self._internal } }
    }

    /// A copy of the builder with the given absolute threshold, or none.
    pub fn with_absolute_mse_threshold(&self, mse_absolute_threshold: Option<T>) -> (r: Self)
        ensures
            r.spec_config().spec_use_kd_tree() == self.spec_config().spec_use_kd_tree(),
            r.spec_config().spec_max_iterations() == self.spec_config().spec_max_iterations(),
            r.spec_config().spec_mse_absolute_threshold() == mse_absolute_threshold,
            r.spec_config().spec_mse_interval_threshold() == self.spec_config().spec_mse_interval_threshold(),
    {
        Self { _internal: ICPConfiguration { mse_absolute_threshold, ..self._internal } }
    }

    /// A copy of the builder with the given interval threshold.
    pub fn with_mse_interval_threshold(&self, mse_interval_threshold: T) -> (r: Self)
        ensures
            r.spec_config().spec_use_kd_tree() == self.spec_config().spec_use_kd_tree(),
            r.spec_config().spec_max_iterations() == self.spec_config().spec_max_iterations(),
            r.spec_config().spec_mse_absolute_threshold() == self.spec_config().spec_mse_absolute_threshold(),
            r.spec_config().spec_mse_interval_threshold() == Some(mse_interval_threshold),
    {
        Self {
            _internal: ICPConfiguration {
                mse_interval_threshold: Some(mse_interval_threshold),
                ..self._internal
            },
        }
    }

    /// The configuration built so far; the builder stays usable.
    pub fn build(&self) -> (r: ICPConfiguration<T>)
        ensures
            r == self.spec_config(),
    {
        self._internal
    }
}

/// The error, if any, with which a run on the given inputs must stop before
/// its first iteration. The checks go in this order: source cloud, target
/// cloud, iteration budget, interval threshold, absolute threshold.
pub open spec fn input_error(
    source_len: nat,
    target_len: nat,
    max_iterations: nat,
    interval_threshold_usable: bool,
    absolute_threshold_usable: bool,
) -> Option<ICPError> {
    if source_len == 0 {
        Some(ICPError::SourceCloudEmpty)
    } else if target_len == 0 {
        Some(ICPError::TargetCloudEmpty)
    } else if max_iterations == 0 {
        Some(ICPError::IterationBudgetIsZero)
    } else if !interval_threshold_usable {
        Some(ICPError::IntervalThresholdTooLow)
    } else if !absolute_threshold_usable {
        Some(ICPError::AbsoluteThresholdTooLow)
    } else {
        None
    }
}

/// Pairs every point of `points` with a nearest point of `target`: through
/// `tree`, a k-d tree over `target`, when one is given, else by an exhaustive
/// scan. Fails with [`ICPError::NoNearestNeighbourFound`] exactly when
/// `target` is empty.
pub fn match_nearest_neighbours<const N: usize>(
    points: &[[i32; N]],
    target: &[[i32; N]],
    tree: Option<&KDTree<N>>,
) -> (r: Result<Vec<[i32; N]>, ICPError>)
    requires
        tree.is_some() ==> tree.unwrap().well_formed() && tree.unwrap()@ == point_set(target@),
    ensures
        r.is_err() <==> target@.len() == 0,
        r.is_err() ==> r == Err::<Vec<[i32; N]>, ICPError>(ICPError::NoNearestNeighbourFound),
        r.is_ok() ==> {
            &&& r.unwrap()@.len() == points@.len()
            &&& forall|i: int| 0 <= i < points@.len()
                ==> is_nearest(#[trigger] r.unwrap()@[i]@, point_set(target@), points@[i]@)
        },
{
    if target.len() == 0 {
        return Err(ICPError::NoNearestNeighbourFound);
    }
    proof {
        assert(point_set(target@).contains(target@[0]@));
    }
    let mut matched: Vec<[i32; N]> = Vec::new();
    let mut i: usize = 0;
    while i < points.len()
        invariant
            i <= points@.len(),
            target@.len() > 0,
            point_set(target@).contains(target@[0]@),
            tree.is_some() ==> tree.unwrap().well_formed() && tree.unwrap()@ == point_set(target@),
            matched@.len() == i,
            forall|j: int| 0 <= j < i ==> is_nearest(#[trigger] matched@[j]@, point_set(target@), points@[j]@),
        decreases points@.len() - i,
    {
        let found = match tree {
            Some(t) => {
                proof {
                    t.lemma_view_shape();
                    if t@.len() == 0 {
                        vstd::set_lib::lemma_set_empty_equivalency_len(t@);
                    }
                }
                t.nearest(&points[i])
            },
            None => find_nearest_neighbour_naive(&points[i], target),
        };
        match found {
            Some(p) => matched.push(p),
            None => return Err(ICPError::NoNearestNeighbourFound),
        }
        i = i + 1;
    }
    Ok(matched)
}

/// What a run does after an iteration.
#[derive(Clone, Copy, Debug, PartialEq, Eq, Structural)]
pub enum IcpStep {
    /// Run another iteration.
    Iterate,
    /// The run converged in the iteration with this zero-based number.
    Converged(usize),
    /// The run stops with this error.
    Failed(ICPError),
}

/// The control state of one registration run: which iteration comes next,
/// out of how many.
///
/// A run starts only on valid inputs and then, after each iteration, decides
/// from the convergence tests whether to stop; the numeric work of each
/// iteration is done by the caller.
pub struct IcpRun {
    iteration: usize,
    max_iterations: usize,
}

impl IcpRun {
    /// The zero-based number of the next iteration.
    pub closed spec fn spec_iteration(&self) -> nat {
        self.iteration as nat
    }

    /// The iteration budget of the run.
    pub closed spec fn spec_max_iterations(&self) -> nat {
        self.max_iterations as nat
    }

    /// Checks the inputs of a run and starts it at iteration zero.
    ///
    /// `interval_threshold_usable` tells whether the interval threshold lies
    /// above machine epsilon; `absolute_threshold_usable` whether the absolute
    /// threshold is unset or lies above machine epsilon.
    pub fn start<T: Copy>(
        source_len: usize,
        target_len: usize,
        config: &ICPConfiguration<T>,
        interval_threshold_usable: bool,
        absolute_threshold_usable: bool,
    ) -> (r: Result<IcpRun, ICPError>)
        ensures
            ({
                let e = input_error(
                    source_len as nat,
                    target_len as nat,
                    config.spec_max_iterations() as nat,
                    interval_threshold_usable,
                    absolute_threshold_usable,
                );
                match r {
                    Ok(run) => {
                        &&& e.is_none()
                        &&& run.spec_iteration() == 0
                        &&& run.spec_max_iterations() == config.spec_max_iterations()
                    },
                    Err(err) => e == Some(err),
                }
            }),
    {
        if source_len == 0 {
            return Err(ICPError::SourceCloudEmpty);
        }
        if target_len == 0 {
            return Err(ICPError::TargetCloudEmpty);
        }
        if config.max_iterations == 0 {
            return Err(ICPError::IterationBudgetIsZero);
        }
        if !interval_threshold_usable {
            return Err(ICPError::IntervalThresholdTooLow);
        }
        if !absolute_threshold_usable {
            return Err(ICPError::AbsoluteThresholdTooLow);
        }
        Ok(IcpRun { iteration: 0, max_iterations: config.max_iterations })
    }

    /// The zero-based number of the next iteration.
    pub fn iteration(&self) -> (r: usize)
        ensures
            r == self.spec_iteration(),
    {
        self.iteration
    }

    /// Decides how the run goes on after the current iteration.
    ///
    /// `below_absolute_threshold` tells whether an absolute threshold is set and
    /// the new error lies below it; `change_below_interval` whether the error
    /// changed by less than the interval threshold. Either one converges the
    /// run; otherwise it goes on while the budget lasts.
    pub fn finish_iteration(&mut self, below_absolute_threshold: bool, change_below_interval: bool) -> (r: IcpStep)
        requires
            old(self).spec_iteration() < old(self).spec_max_iterations(),
        ensures
            final(self).spec_max_iterations() == old(self).spec_max_iterations(),
            below_absolute_threshold || change_below_interval ==> {
                &&& r == IcpStep::Converged(old(self).spec_iteration() as usize)
                &&& final(self).spec_iteration() == old(self).spec_iteration()
            },
            !(below_absolute_threshold || change_below_interval) ==> {
                &&& final(self).spec_iteration() == old(self).spec_iteration() + 1
                &&& r == (if final(self).spec_iteration() == final(self).spec_max_iterations() {
                    IcpStep::Failed(ICPError::DidNotConverge)
                } else {
                    IcpStep::Iterate
                })
            },
    {
        if below_absolute_threshold || change_below_interval {
            return IcpStep::Converged(self.iteration);
        }
        self.iteration = self.iteration + 1;
        if self.iteration == self.max_iterations {
            IcpStep::Failed(ICPError::DidNotConverge)
        } else {
            IcpStep::Iterate
        }
    }
}

} // verus!
