//! Which monitor a builder makes, from the runtime, the semantics and the
//! distribution mode asked for.
use vstd::prelude::*;

use crate::distribution_graphs::NodeName;
use crate::interfaces::{Runtime, Semantics};
use crate::text::{string_concat, string_from_str};
use crate::variables::{VarName, copy_vars, var_views};

verus! {

/// How a monitor is distributed.
pub enum DistributionMode {
    /// One central monitor.
    CentralMonitor,
    /// A monitor for the given local variables.
    LocalMonitor(Vec<VarName>),
    /// Over the given locations, everything at the central location.
    DistributedCentralised(Vec<String>),
    /// Over the given locations, at random.
    DistributedRandom(Vec<String>),
    /// Over the given locations, as the given constraint variables decide once.
    DistributedOptimizedStatic(Vec<String>, Vec<VarName>),
    /// Over the given locations, as the given constraint variables decide over time.
    DistributedOptimizedDynamic(Vec<String>, Vec<VarName>),
}

/// The distribution graph set up for a distributed monitor: each location
/// as a node name with its MQTT name.
pub enum DistGraphSetup {
    Central,
    Centralised(Vec<(NodeName, String)>),
    Random(Vec<(NodeName, String)>),
    OptimizedStatic(Vec<(NodeName, String)>, Vec<VarName>),
    OptimizedDynamic(Vec<(NodeName, String)>, Vec<VarName>),
}

/// The monitor that a builder makes.
pub enum MonitorKind {
    /// The asynchronous runtime with untyped semantics.
    AsyncUntimed,
    /// The asynchronous runtime with typed semantics, after type checking.
    AsyncTypedUntimed,
    /// The constraint-based runtime.
    Constraints,
    /// The reconfigurable asynchronous runtime.
    ReconfigurableAsync,
    /// The distributed runtime with its graph.
    Distributed(DistGraphSetup),
}

/// The runtime and semantics go together; the reconfigurable runtime only
/// when building asynchronously.
pub open spec fn combination_supported(runtime: Runtime, semantics: Semantics, asynchronous: bool) -> bool {
    match (runtime, semantics) {
        (Runtime::Async, _) => true,
        (Runtime::Constraints, Semantics::Untimed) => true,
        (Runtime::Distributed, Semantics::Untimed) => true,
        (Runtime::ReconfigurableAsync, Semantics::Untimed) => asynchronous,
        _ => false,
    }
}

/// Each location name paired with itself, as a node name and a string.
pub open spec fn located(locations: Seq<String>) -> Seq<(Seq<char>, Seq<char>)> {
    locations.map_values(|l: String| (l@, l@))
}

/// The views of located pairs.
pub open spec fn pair_views(ps: Seq<(NodeName, String)>) -> Seq<(Seq<char>, Seq<char>)> {
    ps.map_values(|p: (NodeName, String)| (p.0@, p.1@))
}

/// The graph set up for a distribution mode.
pub open spec fn setup_for(setup: DistGraphSetup, mode: DistributionMode) -> bool {
    match mode {
        DistributionMode::CentralMonitor => setup is Central,
        DistributionMode::LocalMonitor(_) => false,
        DistributionMode::DistributedCentralised(ls) => setup matches DistGraphSetup::Centralised(ps)
            && pair_views(ps@) == located(ls@),
        DistributionMode::DistributedRandom(ls) => setup matches DistGraphSetup::Random(ps)
            && pair_views(ps@) == located(ls@),
        DistributionMode::DistributedOptimizedStatic(ls, cs) => setup matches DistGraphSetup::OptimizedStatic(
            ps,
            cs2,
        ) && pair_views(ps@) == located(ls@) && var_views(cs2@) == var_views(cs@),
        DistributionMode::DistributedOptimizedDynamic(ls, cs) => setup matches DistGraphSetup::OptimizedDynamic(
            ps,
            cs2,
        ) && pair_views(ps@) == located(ls@) && var_views(cs2@) == var_views(cs@),
    }
}

/// The locations of a distribution graph setup, each as a node name with
/// its MQTT name; none for a central monitor.
pub open spec fn setup_locations(setup: DistGraphSetup) -> Seq<(Seq<char>, Seq<char>)> {
    match setup {
        DistGraphSetup::Central => Seq::empty(),
        DistGraphSetup::Centralised(ps) => pair_views(ps@),
        DistGraphSetup::Random(ps) => pair_views(ps@),
        DistGraphSetup::OptimizedStatic(ps, _) => pair_views(ps@),
        DistGraphSetup::OptimizedDynamic(ps, _) => pair_views(ps@),
    }
}

/// The locations a distribution mode names; none for a central or local
/// monitor.
pub open spec fn mode_locations(mode: DistributionMode) -> Seq<String> {
    match mode {
        DistributionMode::CentralMonitor => Seq::empty(),
        DistributionMode::LocalMonitor(_) => Seq::empty(),
        DistributionMode::DistributedCentralised(ls) => ls@,
        DistributionMode::DistributedRandom(ls) => ls@,
        DistributionMode::DistributedOptimizedStatic(ls, _) => ls@,
        DistributionMode::DistributedOptimizedDynamic(ls, _) => ls@,
    }
}

/// The constraint variables of an optimised setup; none for another setup.
pub open spec fn setup_constraints(setup: DistGraphSetup) -> Seq<Seq<char>> {
    match setup {
        DistGraphSetup::OptimizedStatic(_, cs) => var_views(cs@),
        DistGraphSetup::OptimizedDynamic(_, cs) => var_views(cs@),
        _ => Seq::empty(),
    }
}

/// The constraint variables an optimised distribution mode names; none for
/// another mode.
pub open spec fn mode_constraints(mode: DistributionMode) -> Seq<Seq<char>> {
    match mode {
        DistributionMode::DistributedOptimizedStatic(_, cs) => var_views(cs@),
        DistributionMode::DistributedOptimizedDynamic(_, cs) => var_views(cs@),
        _ => Seq::empty(),
    }
}

/// The graph set up for a mode is of the kind the mode asks for, one kind for
/// each mode: a central monitor for a central one, a centralised graph for a
/// centralised distribution, a random one for a random distribution, and a
/// static or dynamic optimised one for an optimised distribution of that
/// kind; it is over the mode's locations, each named after itself, and an
/// optimised one keeps the mode's constraint variables.
pub proof fn lemma_setup_follows_mode(setup: DistGraphSetup, mode: DistributionMode)
    requires
        setup_for(setup, mode),
    ensures
        mode is CentralMonitor <==> setup is Central,
        mode is DistributedCentralised <==> setup is Centralised,
        mode is DistributedRandom <==> setup is Random,
        mode is DistributedOptimizedStatic <==> setup is OptimizedStatic,
        mode is DistributedOptimizedDynamic <==> setup is OptimizedDynamic,
        setup_locations(setup) == located(mode_locations(mode)),
        setup_constraints(setup) == mode_constraints(mode),
{
    assert(located(Seq::<String>::empty()) =~= Seq::<(Seq<char>, Seq<char>)>::empty());
}

/// Each location as a node name with its MQTT name.
fn locate(locations: &Vec<String>) -> (r: Vec<(NodeName, String)>)
    ensures
        pair_views(r@) == located(locations@),
{
    let mut r: Vec<(NodeName, String)> = Vec::new();
    let mut i: usize = 0;
    while i < locations.len()
        invariant
            i <= locations@.len(),
            r@.len() == i,
            forall|k: int| 0 <= k < i ==> #[trigger] r@[k].0@ == locations@[k]@ && r@[k].1@ == locations@[k]@,
        decreases locations@.len() - i,
    {
        r.push((NodeName::from_string(locations[i].clone()), locations[i].clone()));
        i = i + 1;
    }
    assert(pair_views(r@) =~= located(locations@));
    r
}

/// The monitor to build. The runtime and semantics must go together, and a
/// distributed runtime cannot yet run a local monitor.
pub fn monitor_kind(runtime: Runtime, semantics: Semantics, mode: &DistributionMode, asynchronous: bool) -> (r:
    MonitorKind)
    requires
        combination_supported(runtime, semantics, asynchronous),
        runtime == Runtime::Distributed ==> !(mode is LocalMonitor),
    ensures
        match (runtime, semantics) {
            (Runtime::Async, Semantics::Untimed) => r is AsyncUntimed,
            (Runtime::Async, Semantics::TypedUntimed) => r is AsyncTypedUntimed,
            (Runtime::Constraints, _) => r is Constraints,
            (Runtime::ReconfigurableAsync, _) => r is ReconfigurableAsync,
            (Runtime::Distributed, _) => r matches MonitorKind::Distributed(setup) && setup_for(setup, *mode),
        },
{
    match (runtime, semantics) {
        (Runtime::Async, Semantics::Untimed) => MonitorKind::AsyncUntimed,
        (Runtime::Async, Semantics::TypedUntimed) => MonitorKind::AsyncTypedUntimed,
        (Runtime::Constraints, _) => MonitorKind::Constraints,
        (Runtime::ReconfigurableAsync, _) => MonitorKind::ReconfigurableAsync,
        (Runtime::Distributed, _) => {
            let setup = match mode {
                DistributionMode::CentralMonitor => DistGraphSetup::Central,
                DistributionMode::LocalMonitor(_) => DistGraphSetup::Central,
                DistributionMode::DistributedCentralised(ls) => DistGraphSetup::Centralised(locate(ls)),
                DistributionMode::DistributedRandom(ls) => DistGraphSetup::Random(locate(ls)),
                DistributionMode::DistributedOptimizedStatic(ls, cs) => DistGraphSetup::OptimizedStatic(
                    locate(ls),
                    copy_vars(cs),
                ),
                DistributionMode::DistributedOptimizedDynamic(ls, cs) => DistGraphSetup::OptimizedDynamic(
                    locate(ls),
                    copy_vars(cs),
                ),
            };
            MonitorKind::Distributed(setup)
        },
    }
}

/// The distribution mode a monitor is built with: the one a distribution
/// mode builder made, when there is one, else the one configured.
pub fn chosen_distribution_mode(built: Option<DistributionMode>, configured: DistributionMode) -> (r:
    DistributionMode)
    ensures
        r == match built {
            Some(m) => m,
            None => configured,
        },
{
    match built {
        Some(m) => m,
        None => configured,
    }
}

/// Where a monitor's inputs (or outputs) come from.
#[derive(Debug, Clone, Copy, PartialEq, Eq, Structural)]
pub enum IoSource {
    /// Built by the builder given for them.
    Built,
    /// The provider (or handler) given directly.
    Given,
    /// None.
    Absent,
}

/// A builder given for the inputs (or outputs) takes precedence over a
/// provider (or handler) given directly.
pub fn io_source(has_builder: bool, has_given: bool) -> (r: IoSource)
    ensures
        r == (if has_builder {
            IoSource::Built
        } else if has_given {
            IoSource::Given
        } else {
            IoSource::Absent
        }),
{
    if has_builder {
        IoSource::Built
    } else if has_given {
        IoSource::Given
    } else {
        IoSource::Absent
    }
}

/// Building without waiting is only possible when nothing has to be built
/// first: no distribution mode, input or output builder.
pub fn can_build_now(has_mode_builder: bool, has_input_builder: bool, has_output_builder: bool) -> (r:
    bool)
    ensures
        r == !(has_mode_builder || has_input_builder || has_output_builder),
{
    !(has_mode_builder || has_input_builder || has_output_builder)
}

/// The text of a list of strings as `{:?}` writes it.
pub uninterp spec fn debug_string_list(items: Seq<Seq<char>>) -> Seq<char>;

/// `format!("{:?}", ..)` on a list of strings: the list in brackets, each
/// string quoted and escaped as `Debug` for `str` does.
#[verifier::external_body]
fn debug_strings(items: &Vec<String>) -> (r: String)
    ensures
        r@ == debug_string_list(items@.map_values(|s: String| s@)),
{
    format!("{:?}", items)
}

/// `VarName::new("x")` for each variable, comma-separated, in brackets.
pub open spec fn debug_var_list(vs: Seq<Seq<char>>) -> Seq<char> {
    "["@ + debug_var_items(vs) + "]"@
}

/// The items of `debug_var_list`, separated by ", ".
pub open spec fn debug_var_items(vs: Seq<Seq<char>>) -> Seq<char>
    decreases vs.len(),
{
    if vs.len() == 0 {
        Seq::empty()
    } else if vs.len() == 1 {
        "VarName::new(\""@ + vs[0] + "\")"@
    } else {
        debug_var_items(vs.drop_last()) + ", "@ + "VarName::new(\""@ + vs.last() + "\")"@
    }
}

/// The variables as `VarName::new("x")` items in brackets.
fn debug_vars(vs: &Vec<VarName>) -> (r: String)
    ensures
        r@ == debug_var_list(var_views(vs@)),
{
    let ghost views = var_views(vs@);
    let open = string_from_str("VarName::new(\"");
    let close = string_from_str("\")");
    let sep = string_from_str(", ");
    let mut acc = String::new();
    let mut i: usize = 0;
    while i < vs.len()
        invariant
            i <= vs@.len(),
            views == var_views(vs@),
            open@ == "VarName::new(\""@,
            close@ == "\")"@,
            sep@ == ", "@,
            acc@ == debug_var_items(views.subrange(0, i as int)),
        decreases vs@.len() - i,
    {
        proof {
            assert(views.subrange(0, i + 1).drop_last() =~= views.subrange(0, i as int));
            assert(views.subrange(0, i + 1).last() == vs@[i as int]@);
        }
        let a = string_concat(&open, &vs[i].name());
        let item = string_concat(&a, &close);
        if i == 0 {
            assert(views.subrange(0, 1)[0] == vs@[0]@);
            acc = item;
        } else {
            let with_sep = string_concat(&acc, &sep);
            acc = string_concat(&with_sep, &item);
        }
        i = i + 1;
    }
    assert(views.subrange(0, vs@.len() as int) =~= views);
    let lb = string_from_str("[");
    let rb = string_from_str("]");
    let t = string_concat(&lb, &acc);
    string_concat(&t, &rb)
}

impl DistributionMode {
    /// The mode as the original debug text: the variant's name, with its
    /// locations and constraint variables in brackets.
    pub open spec fn spec_describe(&self) -> Seq<char> {
        match self {
            DistributionMode::CentralMonitor => "CentralMonitor"@,
            DistributionMode::LocalMonitor(_) => "LocalMonitor"@,
            DistributionMode::DistributedCentralised(ls) => "DistributedCentralised("@
                + debug_string_list(ls@.map_values(|s: String| s@)) + ")"@,
            DistributionMode::DistributedRandom(ls) => "DistributedRandom("@ + debug_string_list(
                ls@.map_values(|s: String| s@),
            ) + ")"@,
            DistributionMode::DistributedOptimizedStatic(ls, cs) => "DistributedOptimizedStatic("@
                + debug_string_list(ls@.map_values(|s: String| s@)) + ", "@ + debug_var_list(
                var_views(cs@),
            ) + ")"@,
            DistributionMode::DistributedOptimizedDynamic(ls, cs) => "DistributedOptimizedDynamic("@
                + debug_string_list(ls@.map_values(|s: String| s@)) + ", "@ + debug_var_list(
                var_views(cs@),
            ) + ")"@,
        }
    }

    /// The mode as text, for logs.
    pub fn describe(&self) -> (r: String)
        ensures
            r@ == self.spec_describe(),
    {
        match self {
            DistributionMode::CentralMonitor => string_from_str("CentralMonitor"),
            DistributionMode::LocalMonitor(_) => string_from_str("LocalMonitor"),
            DistributionMode::DistributedCentralised(ls) => {
                let a = string_concat(&string_from_str("DistributedCentralised("), &debug_strings(ls));
                string_concat(&a, &string_from_str(")"))
            },
            DistributionMode::DistributedRandom(ls) => {
                let a = string_concat(&string_from_str("DistributedRandom("), &debug_strings(ls));
                string_concat(&a, &string_from_str(")"))
            },
            DistributionMode::DistributedOptimizedStatic(ls, cs) => {
                let a = string_concat(&string_from_str("DistributedOptimizedStatic("), &debug_strings(ls));
                let b = string_concat(&a, &string_from_str(", "));
                let c = string_concat(&b, &debug_vars(cs));
                string_concat(&c, &string_from_str(")"))
            },
            DistributionMode::DistributedOptimizedDynamic(ls, cs) => {
                let a = string_concat(&string_from_str("DistributedOptimizedDynamic("), &debug_strings(ls));
                let b = string_concat(&a, &string_from_str(", "));
                let c = string_concat(&b, &debug_vars(cs));
                string_concat(&c, &string_from_str(")"))
            },
        }
    }
}

} // verus!
