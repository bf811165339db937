//! What the input and output builders set up: which variables read or
//! write which topics.
use vstd::prelude::*;

use crate::cli::OutputMode;
use crate::text::string_from_str;
use crate::variables::{VarName, contains_var, copy_vars, var_views};

verus! {

/// Where the input streams come from.
#[derive(Debug, Clone)]
pub enum InputProviderSpec {
    /// A file of trace data.
    File(String),
    /// A file that maps variables to ROS topics.
    Ros(String),
    /// MQTT topics, or the input variables' names.
    MQTT(Option<Vec<String>>),
    /// Redis channels, or the input variables' names.
    Redis(Option<Vec<String>>),
    /// MQTT topics with a variable mapping, or the input variables' names.
    MQTTMap(Option<Vec<String>>),
}

/// The views of (variable, topic) pairs.
pub open spec fn topic_views(ps: Seq<(VarName, String)>) -> Seq<(Seq<char>, Seq<char>)> {
    ps.map_values(|p: (VarName, String)| (p.0@, p.1@))
}

/// The (variable, topic) pairs to subscribe to: each topic read into the
/// variable of the same name, or, with no topics given, each input variable
/// from the topic of its name; each variable once, where it first occurs.
pub open spec fn spec_var_topics(topics: Option<Seq<Seq<char>>>, input_vars: Seq<Seq<char>>) -> Seq<
    (Seq<char>, Seq<char>),
> {
    dedup_vars(
        match topics {
            Some(ts) => ts.map_values(|t: Seq<char>| (t, t)),
            None => input_vars.map_values(|v: Seq<char>| (v, v)),
        },
    )
}

/// The pairs with each variable kept once, at its first occurrence.
pub open spec fn dedup_vars(ps: Seq<(Seq<char>, Seq<char>)>) -> Seq<(Seq<char>, Seq<char>)>
    decreases ps.len(),
{
    if ps.len() == 0 {
        ps
    } else {
        let d = dedup_vars(ps.drop_last());
        if exists|i: int| 0 <= i < d.len() && d[i].0 == ps.last().0 {
            d
        } else {
            d.push(ps.last())
        }
    }
}

/// The pairs with each variable kept once, at its first occurrence.
fn dedup_by_var(ps: Vec<(VarName, String)>) -> (r: Vec<(VarName, String)>)
    ensures
        topic_views(r@) == dedup_vars(topic_views(ps@)),
{
    let ghost pv = topic_views(ps@);
    let mut r: Vec<(VarName, String)> = Vec::new();
    let mut i: usize = 0;
    assert(pv.subrange(0, 0) =~= Seq::<(Seq<char>, Seq<char>)>::empty());
    while i < ps.len()
        invariant
            i <= ps@.len(),
            pv == topic_views(ps@),
            topic_views(r@) == dedup_vars(pv.subrange(0, i as int)),
        decreases ps@.len() - i,
    {
        let ghost rv = topic_views(r@);
        proof {
            assert(pv.subrange(0, i + 1).drop_last() =~= pv.subrange(0, i as int));
            assert(pv.subrange(0, i + 1).last() == pv[i as int]);
        }
        let mut found = false;
        let mut j: usize = 0;
        while j < r.len()
            invariant
                j <= r@.len(),
                i < ps@.len(),
                rv == topic_views(r@),
                found == exists|k: int| 0 <= k < j && rv[k].0 == ps@[i as int].0@,
            decreases r@.len() - j,
        {
            assert(rv[j as int].0 == r@[j as int].0@);
            if r[j].0.same_as(&ps[i].0) {
                found = true;
            }
            j = j + 1;
        }
        if !found {
            r.push((ps[i].0.duplicate(), ps[i].1.clone()));
            assert(topic_views(r@) =~= rv.push(pv[i as int]));
        }
        i = i + 1;
    }
    assert(pv.subrange(0, ps@.len() as int) =~= pv);
    r
}

/// The views of optional topics.
pub open spec fn opt_topics(topics: Option<Vec<String>>) -> Option<Seq<Seq<char>>> {
    match topics {
        Some(ts) => Some(ts@.map_values(|s: String| s@)),
        None => None,
    }
}

/// Each name paired with itself, as a variable and a topic.
fn pair_names(names: &Vec<String>) -> (r: Vec<(VarName, String)>)
    ensures
        topic_views(r@) == names@.map_values(|s: String| s@).map_values(|t: Seq<char>| (t, t)),
{
    let mut r: Vec<(VarName, String)> = Vec::new();
    let mut i: usize = 0;
    while i < names.len()
        invariant
            i <= names@.len(),
            r@.len() == i,
            forall|k: int| 0 <= k < i ==> #[trigger] r@[k].0@ == names@[k]@ && r@[k].1@ == names@[k]@,
        decreases names@.len() - i,
    {
        r.push((VarName::from_string(names[i].clone()), names[i].clone()));
        i = i + 1;
    }
    assert(topic_views(r@) =~= names@.map_values(|s: String| s@).map_values(|t: Seq<char>| (t, t)));
    r
}

/// Each variable paired with the topic of its name.
fn pair_vars(vars: &Vec<VarName>) -> (r: Vec<(VarName, String)>)
    ensures
        topic_views(r@) == var_views(vars@).map_values(|v: Seq<char>| (v, v)),
{
    let mut r: Vec<(VarName, String)> = Vec::new();
    let mut i: usize = 0;
    while i < vars.len()
        invariant
            i <= vars@.len(),
            r@.len() == i,
            forall|k: int| 0 <= k < i ==> #[trigger] r@[k].0@ == vars@[k]@ && r@[k].1@ == vars@[k]@,
        decreases vars@.len() - i,
    {
        r.push((vars[i].duplicate(), vars[i].name()));
        i = i + 1;
    }
    assert(topic_views(r@) =~= var_views(vars@).map_values(|v: Seq<char>| (v, v)));
    r
}

/// The (variable, topic) pairs an MQTT or Redis input provider subscribes
/// to. Without topics, the input variables must be known.
pub fn var_topics(topics: &Option<Vec<String>>, input_vars: &Option<Vec<VarName>>) -> (r: Vec<(VarName, String)>)
    requires
        topics is None ==> input_vars is Some,
    ensures
        topic_views(r@) == spec_var_topics(
            opt_topics(*topics),
            match input_vars {
                Some(vs) => var_views(vs@),
                None => Seq::empty(),
            },
        ),
{
    let ps = match topics {
        Some(ts) => pair_names(ts),
        None => match input_vars {
            Some(vs) => pair_vars(vs),
            None => Vec::new(),
        },
    };
    proof {
        if topics is None && input_vars is None {
            assert(topic_views(ps@) =~= Seq::<Seq<char>>::empty().map_values(|v: Seq<char>| (v, v)));
        }
    }
    dedup_by_var(ps)
}

/// The host used when none is given.
pub open spec fn default_host() -> Seq<char> {
    "localhost"@
}

/// The host given, or `localhost`.
pub fn host_or_default(host: &Option<String>) -> (r: String)
    ensures
        r@ == match host {
            Some(h) => h@,
            None => default_host(),
        },
{
    match host {
        Some(h) => h.clone(),
        None => string_from_str("localhost"),
    }
}

/// What an output handler is set up as.
pub enum OutputPlan {
    /// Print the variables.
    Stdout(Vec<VarName>),
    /// Publish the variables over MQTT on the given (variable, topic) pairs.
    Mqtt(Vec<VarName>, Vec<(VarName, String)>),
    /// Publish the variables over Redis on the given (variable, channel) pairs.
    Redis(Vec<VarName>, Vec<(VarName, String)>),
}

/// Output on ROS topics is asked for and nothing before it in the order of
/// choice applies.
pub open spec fn only_ros_output(mode: OutputMode) -> bool {
    &&& !mode.output_stdout
    &&& mode.output_mqtt_topics is None
    &&& !mode.redis_output
    &&& mode.output_redis_topics is None
    &&& !mode.mqtt_output
    &&& mode.output_ros_topics is Some
}

/// The topics among `topics` that name an output variable, each paired with
/// that variable.
pub open spec fn output_topics(topics: Seq<Seq<char>>, vars: Seq<Seq<char>>) -> Seq<(Seq<char>, Seq<char>)> {
    topics.filter(|t: Seq<char>| vars.contains(t)).map_values(|t: Seq<char>| (t, t))
}

/// The handler chosen for an output mode, in this order: standard output,
/// MQTT topics, Redis on the variables' names, Redis channels, MQTT on the
/// variables' names, and standard output when nothing is chosen.
pub open spec fn spec_output_plan(mode: OutputMode, vars: Seq<Seq<char>>) -> (int, Seq<(Seq<char>, Seq<char>)>) {
    if mode.output_stdout {
        (0, Seq::empty())
    } else if mode.output_mqtt_topics is Some {
        (1, output_topics(mode.output_mqtt_topics.unwrap()@.map_values(|s: String| s@), vars))
    } else if mode.redis_output {
        (2, vars.map_values(|v: Seq<char>| (v, v)))
    } else if mode.output_redis_topics is Some {
        (2, output_topics(mode.output_redis_topics.unwrap()@.map_values(|s: String| s@), vars))
    } else if mode.mqtt_output {
        (1, vars.map_values(|v: Seq<char>| (v, v)))
    } else {
        (0, Seq::empty())
    }
}

/// Some output other than standard output is asked for.
pub open spec fn other_output_asked(mode: OutputMode) -> bool {
    mode.output_mqtt_topics is Some || mode.mqtt_output || mode.output_redis_topics is Some
        || mode.redis_output
}

/// Each handler is chosen only when it is asked for: MQTT only when MQTT
/// topics or MQTT output are asked for, Redis only when Redis channels or
/// Redis output are, and standard output when it is asked for or nothing else
/// is. When only one of the four MQTT and Redis
/// options is set, and standard output is not asked for, that option's
/// handler is the one chosen.
pub proof fn lemma_output_plan_follows_options(mode: OutputMode, vars: Seq<Seq<char>>)
    ensures
        ({
            let k = spec_output_plan(mode, vars).0;
            &&& k == 0 || k == 1 || k == 2
            &&& k == 1 ==> mode.output_mqtt_topics is Some || mode.mqtt_output
            &&& k == 2 ==> mode.output_redis_topics is Some || mode.redis_output
            &&& k == 0 <==> mode.output_stdout || !other_output_asked(mode)
            &&& !mode.output_stdout && (mode.output_mqtt_topics is Some || mode.mqtt_output)
                && !(mode.output_redis_topics is Some || mode.redis_output) ==> k == 1
            &&& !mode.output_stdout && (mode.output_redis_topics is Some || mode.redis_output)
                && !(mode.output_mqtt_topics is Some || mode.mqtt_output) ==> k == 2
        }),
{
}

/// The topics among `topics` that name one of `vars`, each paired with that
/// variable.
fn filter_topics(topics: &Vec<String>, vars: &Vec<VarName>) -> (r: Vec<(VarName, String)>)
    ensures
        topic_views(r@) == output_topics(topics@.map_values(|s: String| s@), var_views(vars@)),
{
    let ghost ts = topics@.map_values(|s: String| s@);
    let ghost pred = |t: Seq<char>| var_views(vars@).contains(t);
    let mut r: Vec<(VarName, String)> = Vec::new();
    let mut i: usize = 0;
    while i < topics.len()
        invariant
            i <= topics@.len(),
            ts == topics@.map_values(|s: String| s@),
            pred == (|t: Seq<char>| var_views(vars@).contains(t)),
            topic_views(r@) == ts.subrange(0, i as int).filter(pred).map_values(|t: Seq<char>| (t, t)),
        decreases topics@.len() - i,
    {
        let ghost before = r@;
        proof {
            assert(ts.subrange(0, i + 1).drop_last() =~= ts.subrange(0, i as int));
            assert(ts.subrange(0, i + 1).last() == topics@[i as int]@);
            reveal_with_fuel(Seq::<Seq<char>>::filter, 1);
        }
        let v = VarName::from_string(topics[i].clone());
        if contains_var(vars, &v) {
            r.push((v, topics[i].clone()));
            assert(topic_views(r@) =~= topic_views(before).push((topics@[i as int]@, topics@[i as int]@)));
        }
        i = i + 1;
    }
    assert(ts.subrange(0, topics@.len() as int) =~= ts);
    r
}

/// Chooses the output handler. Output to ROS topics is not supported.
pub fn output_plan(mode: &OutputMode, output_var_names: &Option<Vec<VarName>>) -> (r: OutputPlan)
    requires
        !only_ros_output(*mode),
    ensures
        ({
            let vars = match output_var_names {
                Some(vs) => var_views(vs@),
                None => Seq::empty(),
            };
            let (kind, topics) = spec_output_plan(*mode, vars);
            match r {
                OutputPlan::Stdout(vs) => kind == 0 && var_views(vs@) == vars,
                OutputPlan::Mqtt(vs, ps) => kind == 1 && var_views(vs@) == vars && topic_views(ps@) == topics,
                OutputPlan::Redis(vs, ps) => kind == 2 && var_views(vs@) == vars && topic_views(ps@) == topics,
            }
        }),
{
    let vars = match output_var_names {
        Some(vs) => copy_vars(vs),
        None => Vec::new(),
    };
    if mode.output_stdout {
        OutputPlan::Stdout(vars)
    } else if let Some(ts) = &mode.output_mqtt_topics {
        let ps = filter_topics(ts, &vars);
        OutputPlan::Mqtt(vars, ps)
    } else if mode.redis_output {
        let ps = pair_vars(&vars);
        OutputPlan::Redis(vars, ps)
    } else if let Some(ts) = &mode.output_redis_topics {
        let ps = filter_topics(ts, &vars);
        OutputPlan::Redis(vars, ps)
    } else if mode.mqtt_output {
        let ps = pair_vars(&vars);
        OutputPlan::Mqtt(vars, ps)
    } else {
        OutputPlan::Stdout(vars)
    }
}

/// The positions, in order, of the outputs that are printed: those whose
/// variable is not auxiliary.
pub fn shown_outputs(var_names: &Vec<VarName>, aux_names: &Vec<VarName>) -> (r: Vec<usize>)
    ensures
        forall|k: int| 0 <= k < r@.len() ==> #[trigger] r@[k] < var_names@.len() && !var_views(
            aux_names@,
        ).contains(var_names@[r@[k] as int]@),
        forall|k: int, l: int| 0 <= k < l < r@.len() ==> #[trigger] r@[k] < #[trigger] r@[l],
        forall|i: int|
            0 <= i < var_names@.len() && !var_views(aux_names@).contains(#[trigger] var_names@[i]@)
                ==> r@.contains(i as usize),
{
    let mut r: Vec<usize> = Vec::new();
    let mut i: usize = 0;
    while i < var_names.len()
        invariant
            i <= var_names@.len(),
            forall|k: int| 0 <= k < r@.len() ==> #[trigger] r@[k] < i && !var_views(aux_names@).contains(
                var_names@[r@[k] as int]@,
            ),
            forall|k: int, l: int| 0 <= k < l < r@.len() ==> #[trigger] r@[k] < #[trigger] r@[l],
            forall|j: int|
                0 <= j < i && !var_views(aux_names@).contains(#[trigger] var_names@[j]@) ==> r@.contains(
                    j as usize,
                ),
        decreases var_names@.len() - i,
    {
        if !contains_var(aux_names, &var_names[i]) {
            let ghost before = r@;
            r.push(i);
            assert forall|j: int|
                0 <= j < i + 1 && !var_views(aux_names@).contains(#[trigger] var_names@[j]@) implies r@.contains(
                j as usize,
            ) by {
                if j < i {
                    let k = choose|k: int| 0 <= k < before.len() && before[k] == j as usize;
                    assert(r@[k] == j as usize);
                } else {
                    assert(r@[r@.len() - 1] == i);
                }
            }
        }
        i = i + 1;
    }
    r
}

} // verus!
