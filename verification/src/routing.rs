//! Routing of MIDI sources to parameter paths, checked against the registry.

use vstd::prelude::*;
use vstd::string::*;
use crate::registry::ParamRegistry;

verus! {

/// Routing rule: maps a MIDI source path to a parameter path, with the affine
/// transform `value = input * scale + offset`. `N` is the numeric type.
#[derive(Debug, Clone)]
pub struct RoutingRule<N> {
    /// Source identifier, e.g. `"midi.cc.1"`, `"mpe.pressure"`, `"mpe.pitchbend"`.
    pub source: String,
    /// Target parameter path, e.g. `"cloud.shimmer.density"`.
    pub target: String,
    pub scale: N,
    pub offset: N,
}

/// Routes incoming MIDI events to parameter fields.
pub struct MidiRouter<N> {
    pub rules: Vec<RoutingRule<N>>,
}

/// The report for a rule whose target is not a registered parameter.
pub open spec fn missing_target_message(target: Seq<char>) -> Seq<char> {
    "Routing target not found: '"@ + target + "'"@
}

/// One report per rule whose target is not in `registered`, in rule order.
pub open spec fn missing_target_reports<N>(
    rules: Seq<RoutingRule<N>>,
    registered: Set<Seq<char>>,
) -> Seq<Seq<char>>
    decreases rules.len(),
{
    if rules.len() == 0 {
        seq![]
    } else {
        let earlier = missing_target_reports(rules.drop_last(), registered);
        let t = rules.last().target@;
        if registered.contains(t) {
            earlier
        } else {
            earlier.push(missing_target_message(t))
        }
    }
}

impl<N> MidiRouter<N> {
    pub fn new(rules: Vec<RoutingRule<N>>) -> (router: Self)
        ensures
            router.rules@ == rules@,
    {
        MidiRouter { rules }
    }

    /// Validate all routing targets against the registry: one message per
    /// rule whose target is not registered, in rule order.
    pub fn validate<M, S>(&self, registry: &ParamRegistry<M, S>) -> (errors: Vec<String>)
        requires
            registry.wf(),
        ensures
            errors@.map_values(|s: String| s@) == missing_target_reports(
                self.rules@,
                registry.descriptors().dom(),
            ),
    {
        let mut errors: Vec<String> = Vec::new();
        let mut i: usize = 0;
        while i < self.rules.len()
            invariant
                i <= self.rules@.len(),
                registry.wf(),
                errors@.map_values(|s: String| s@) == missing_target_reports(
                    self.rules@.take(i as int),
                    registry.descriptors().dom(),
                ),
            decreases self.rules@.len() - i,
        {
            let ghost before = errors@;
            let target = self.rules[i].target.as_str();
            if registry.get_descriptor(target).is_none() {
                let mut message = "Routing target not found: '".to_owned();
                message.append(target);
                message.append("'");
                errors.push(message);
                assert(errors@.map_values(|s: String| s@) =~= before.map_values(|s: String| s@).push(
                    missing_target_message(target@),
                ));
            }
            assert(self.rules@.take(i + 1).drop_last() =~= self.rules@.take(i as int));
            i = i + 1;
        }
        assert(self.rules@.take(i as int) =~= self.rules@);
        errors
    }
}

/// Whether a rule's target is not among the registered paths.
pub open spec fn target_missing<N>(registered: Set<Seq<char>>, r: RoutingRule<N>) -> bool {
    !registered.contains(r.target@)
}

/// The report for a rule.
pub open spec fn report_of<N>(r: RoutingRule<N>) -> Seq<char> {
    missing_target_message(r.target@)
}

/// Validation reports exactly the rules whose target is not a registered
/// path (set membership, nothing looser), one report per such rule, in rule
/// order.
pub proof fn law_reports_exactly_unregistered<N>(rules: Seq<RoutingRule<N>>, registered: Set<Seq<char>>)
    ensures
        missing_target_reports(rules, registered) == rules.filter(
            |r: RoutingRule<N>| target_missing(registered, r),
        ).map_values(|r: RoutingRule<N>| report_of(r)),
    decreases rules.len(),
{
    reveal(Seq::filter);
    if rules.len() > 0 {
        law_reports_exactly_unregistered(rules.drop_last(), registered);
        let f = |r: RoutingRule<N>| target_missing(registered, r);
        let g = |r: RoutingRule<N>| report_of(r);
        if f(rules.last()) {
            assert(rules.filter(f).map_values(g) =~= rules.drop_last().filter(f).map_values(g).push(
                g(rules.last()),
            ));
        } else {
            assert(rules.filter(f) =~= rules.drop_last().filter(f));
        }
    }
}

/// A registry in which every target is registered gives no report, and each
/// rule whose target is not registered is reported.
pub proof fn law_missing_targets_reported<N>(rules: Seq<RoutingRule<N>>, registered: Set<Seq<char>>)
    ensures
        (forall|i: int| 0 <= i < rules.len() ==> registered.contains(#[trigger] rules[i].target@))
            ==> missing_target_reports(rules, registered).len() == 0,
        forall|i: int|
            0 <= i < rules.len() && !registered.contains(#[trigger] rules[i].target@)
                ==> missing_target_reports(rules, registered).contains(
                missing_target_message(rules[i].target@),
            ),
    decreases rules.len(),
{
    if rules.len() > 0 {
        let init = rules.drop_last();
        law_missing_targets_reported(init, registered);
        if forall|i: int| 0 <= i < rules.len() ==> registered.contains(#[trigger] rules[i].target@) {
            assert forall|i: int| 0 <= i < init.len() implies registered.contains(
                #[trigger] init[i].target@,
            ) by {
                assert(init[i] == rules[i]);
            }
        }
        let earlier = missing_target_reports(init, registered);
        let all = missing_target_reports(rules, registered);
        assert forall|i: int|
            0 <= i < rules.len() && !registered.contains(#[trigger] rules[i].target@) implies all.contains(
            missing_target_message(rules[i].target@),
        ) by {
            if i < init.len() {
                assert(init[i] == rules[i]);
                assert(earlier.contains(missing_target_message(init[i].target@)));
                let k = choose|k: int| 0 <= k < earlier.len() && earlier[k] == missing_target_message(
                    init[i].target@,
                );
                if !registered.contains(rules.last().target@) {
                    assert(all[k] == earlier[k]);
                }
            } else {
                assert(all.last() == missing_target_message(rules[i].target@));
            }
        }
    }
}

} // verus!
