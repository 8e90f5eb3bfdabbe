//! Profile rendering plans: which rows one counter slot is shown as.
use crate::metric::MetricType;
use vstd::prelude::*;

verus! {

/// Counter policy applied by [`crate::Metric::record`].
///
/// This describes only threshold and bucket behavior. Protocol-specific
/// output names remain in [`ProfilePlan`].
#[derive(Clone, Copy, Debug, Eq, Hash, PartialEq, Structural)]
pub enum MetricPolicy {
    /// Standard resource buckets with a 50 ms slow threshold.
    Resource,
    /// Standard resource buckets with a 200 ms slow threshold.
    Service,
    /// Access-statistic buckets with a 200 ms slow threshold.
    Access,
}

/// JSON shape used for one profile output plan.
#[derive(Clone, Copy, Debug, Eq, Hash, PartialEq, Structural)]
pub enum ProfileFormat {
    /// ProfileUtil resource fields with numeric counters.
    Resource,
    /// RPC access-statistic fields with string counters.
    AccessStatistic,
}

/// One `type`/`name` view emitted from a metric snapshot.
#[derive(Clone, Debug, Eq, Hash, PartialEq)]
pub struct ProfileOutput {
    pub metric_type: String,
    pub name: String,
}

/// The two texts of a [`ProfileOutput`].
#[verifier::ext_equal]
pub struct OutputView {
    pub metric_type: Seq<char>,
    pub name: Seq<char>,
}

impl View for ProfileOutput {
    type V = OutputView;

    open spec fn view(&self) -> OutputView {
        OutputView { metric_type: self.metric_type@, name: self.name@ }
    }
}

impl ProfileOutput {
    /// An output with the given type and name.
    pub fn new(metric_type: &str, name: &str) -> (output: ProfileOutput)
        ensures
            output@ == (OutputView { metric_type: metric_type@, name: name@ }),
    {
        ProfileOutput { metric_type: metric_type.to_string(), name: name.to_string() }
    }
}

/// Immutable profile rendering plan for one counter slot.
///
/// Direct outputs all receive the same drained snapshot. An aggregate output
/// contributes that snapshot to a process-wide sum keyed by its `type` and
/// `name`; the sum is emitted after every direct metric has been drained. Plans
/// that share an aggregate output add to one sum even if their policies or formats
/// differ; it is shown with those of the first plan that contributes in the interval.
#[derive(Clone, Debug)]
pub struct ProfilePlan {
    pub identity: String,
    pub policy: MetricPolicy,
    pub format: ProfileFormat,
    pub outputs: Vec<ProfileOutput>,
    pub aggregate: Option<ProfileOutput>,
}

/// What a [`ProfilePlan`] says, with its texts as character sequences.
#[verifier::ext_equal]
pub struct PlanView {
    pub identity: Seq<char>,
    pub policy: MetricPolicy,
    pub format: ProfileFormat,
    pub outputs: Seq<OutputView>,
    pub aggregate: Option<OutputView>,
}

/// The views of a sequence of outputs.
pub open spec fn output_views(outputs: Seq<ProfileOutput>) -> Seq<OutputView> {
    Seq::new(outputs.len(), |i: int| outputs[i]@)
}

impl View for ProfilePlan {
    type V = PlanView;

    open spec fn view(&self) -> PlanView {
        PlanView {
            identity: self.identity@,
            policy: self.policy,
            format: self.format,
            outputs: output_views(self.outputs@),
            aggregate: match self.aggregate {
                Some(output) => Some(output@),
                None => None,
            },
        }
    }
}

impl ProfilePlan {
    /// Starts a plan with its canonical output.
    #[must_use]
    pub fn new(
        identity: &str,
        policy: MetricPolicy,
        format: ProfileFormat,
        metric_type: &str,
        name: &str,
    ) -> (plan: ProfilePlan)
        ensures
            plan@ == (PlanView {
                identity: identity@,
                policy: policy,
                format: format,
                outputs: seq![OutputView { metric_type: metric_type@, name: name@ }],
                aggregate: None,
            }),
            plan.identity@ == identity@,
            plan.policy == policy,
            plan.format == format,
            plan.outputs@.len() == 1,
            plan.outputs@[0].metric_type@ == metric_type@,
            plan.outputs@[0].name@ == name@,
            plan.aggregate is None,
    {
        let mut outputs: Vec<ProfileOutput> = Vec::new();
        outputs.push(ProfileOutput::new(metric_type, name));
        let plan = ProfilePlan {
            identity: identity.to_string(),
            policy,
            format,
            outputs,
            aggregate: None,
        };
        assert(plan@.outputs =~= seq![OutputView { metric_type: metric_type@, name: name@ }]);
        plan
    }

    /// Adds another direct profile view of the same snapshot.
    #[must_use]
    pub fn alias(self, metric_type: &str, name: &str) -> (plan: ProfilePlan)
        ensures
            plan@ == (PlanView {
                outputs: self@.outputs.push(OutputView { metric_type: metric_type@, name: name@ }),
                ..self@
            }),
            plan.identity@ == self.identity@,
            plan.policy == self.policy,
            plan.format == self.format,
            plan@.aggregate == self@.aggregate,
            plan.outputs@.len() == self.outputs@.len() + 1,
            plan.outputs@.drop_last() == self.outputs@,
            plan.outputs@.last().metric_type@ == metric_type@,
            plan.outputs@.last().name@ == name@,
    {
        let mut plan = self;
        plan.outputs.push(ProfileOutput::new(metric_type, name));
        assert(plan@.outputs =~= self@.outputs.push(
            OutputView { metric_type: metric_type@, name: name@ },
        ));
        plan
    }

    /// Adds one flush-time aggregate target for this snapshot.
    #[must_use]
    pub fn aggregate(self, metric_type: &str, name: &str) -> (plan: ProfilePlan)
        ensures
            plan@ == (PlanView {
                aggregate: Some(OutputView { metric_type: metric_type@, name: name@ }),
                ..self@
            }),
            plan.identity@ == self.identity@,
            plan.policy == self.policy,
            plan.format == self.format,
            plan.outputs@ == self.outputs@,
            plan.aggregate matches Some(output) && output.metric_type@ == metric_type@
                && output.name@ == name@,
    {
        let mut plan = self;
        plan.aggregate = Some(ProfileOutput::new(metric_type, name));
        plan
    }
}

/// How one metric is shown: as one row of a fixed kind, or by a plan.
#[derive(Debug)]
pub enum ProfileMeta {
    Single { name: String, kind: MetricType },
    Fanout(ProfilePlan),
}

/// What a [`ProfileMeta`] says, with its texts as character sequences.
#[verifier::ext_equal]
pub enum ProfileView {
    Single { name: Seq<char>, kind: MetricType },
    Fanout(PlanView),
}

impl View for ProfileMeta {
    type V = ProfileView;

    open spec fn view(&self) -> ProfileView {
        match self {
            ProfileMeta::Single { name, kind } => ProfileView::Single { name: name@, kind: *kind },
            ProfileMeta::Fanout(plan) => ProfileView::Fanout(plan@),
        }
    }
}

} // verus!
