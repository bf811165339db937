use trustworthiness_checker::ast::{LOLASpecification, NumericalBinOp, SBinOp, SExpr};
use trustworthiness_checker::benches::{
    RecordingRuntime, RuntimeCall, constraint_bench_inputs,
    monitor_outputs_untyped_constraints_no_overhead,
};
use trustworthiness_checker::interfaces::Specification;
use trustworthiness_checker::localisation::Localisable;
use trustworthiness_checker::parser::{ParseError, parse_str};
use trustworthiness_checker::ros_mapping::{
    JsonField, ROSMsgType, RosMappingError, json_to_mapping, mapping_from_members,
    string_to_ros_msg_type,
};
use trustworthiness_checker::values::{StreamType, Value};
use trustworthiness_checker::variables::VarName;
use trustworthiness_checker::varmap::VarMap;

fn v(s: &str) -> VarName {
    VarName::new(s)
}

fn spec_simple_add_decomposable() -> &'static str {
    "in x\nin y\nin z\nout w\nout v\nw = x + y\nv = z + w"
}

fn exprs(items: Vec<(&str, SExpr)>) -> VarMap<SExpr> {
    let mut m = VarMap::new();
    for (k, e) in items {
        m.insert(v(k), e);
    }
    m
}

fn add(a: &str, b: &str) -> SExpr {
    SExpr::BinOp(
        Box::new(SExpr::Var(v(a))),
        Box::new(SExpr::Var(v(b))),
        SBinOp::from_symbol("+").unwrap(),
    )
}

#[test]
fn example() {
    assert!(matches!(Some(42), Some(_)));
}

#[test]
fn test_localise_specification_1() {
    let spec = LOLASpecification::new(
        vec![v("a"), v("b")],
        vec![v("c"), v("d"), v("e")],
        exprs(vec![
            ("c", SExpr::Var(v("a"))),
            ("d", SExpr::Not(Box::new(SExpr::Var(v("a"))))),
            ("e", SExpr::Not(Box::new(SExpr::Var(v("d"))))),
        ]),
        VarMap::new(),
        vec![],
    );
    let restricted_vars = vec![v("c"), v("e")];
    let localised_spec = spec.localise(&restricted_vars);
    assert_eq!(
        localised_spec,
        LOLASpecification::new(
            vec![v("a"), v("d")],
            vec![v("c"), v("e")],
            exprs(vec![
                ("c", SExpr::Var(v("a"))),
                ("e", SExpr::Not(Box::new(SExpr::Var(v("d"))))),
            ]),
            VarMap::new(),
            vec![],
        )
    )
}

#[test]
fn test_localise_specification_2() {
    let spec = LOLASpecification::new(vec![v("a")], vec![v("i")], VarMap::new(), VarMap::new(), vec![]);
    let restricted_vars: Vec<VarName> = vec![];
    let localised_spec = spec.localise(&restricted_vars);
    assert_eq!(
        localised_spec,
        LOLASpecification::new(vec![], vec![], VarMap::new(), VarMap::new(), vec![])
    )
}

#[test]
fn test_localise_specification_simple_add() {
    let spec = parse_str(spec_simple_add_decomposable()).expect("Failed to parse specification");

    let local_spec1 = spec.localise(&vec![v("w")]);
    let local_spec2 = spec.localise(&vec![v("v")]);

    assert_eq!(
        local_spec1,
        LOLASpecification::new(
            vec![v("x"), v("y")],
            vec![v("w")],
            exprs(vec![("w", add("x", "y"))]),
            VarMap::new(),
            vec![],
        )
    );
    assert_eq!(
        local_spec2,
        LOLASpecification::new(
            vec![v("z"), v("w")],
            vec![v("v")],
            exprs(vec![("v", add("z", "w"))]),
            VarMap::new(),
            vec![],
        )
    );
}

#[test]
fn localised_specs_stay_within_the_local_variables() {
    let spec = parse_str(spec_simple_add_decomposable()).unwrap();
    let local = vec![v("v"), v("q")];
    let localised = spec.localise(&local);
    for o in localised.output_vars.iter() {
        assert!(local.contains(o));
    }
    for i in localised.input_vars.iter() {
        assert!(spec.input_vars.contains(i) || spec.output_vars.contains(i));
    }
}

#[test]
fn specification_lists_inputs_then_outputs() {
    let spec = parse_str(spec_simple_add_decomposable()).unwrap();
    assert_eq!(spec.var_names(), vec![v("x"), v("y"), v("z"), v("w"), v("v")]);
    assert_eq!(
        spec.var_expr(&v("w")),
        Some(SExpr::BinOp(
            Box::new(SExpr::Var(v("x"))),
            Box::new(SExpr::Var(v("y"))),
            SBinOp::NOp(NumericalBinOp::Add)
        ))
    );
    assert_eq!(spec.var_expr(&v("x")), None);
}

#[test]
fn test_json_to_mapping() {
    let json = r#"
    {
        "x": {
            "topic": "/x",
            "msg_type": "Int32"
        },
        "y": {
            "topic": "/y",
            "msg_type": "String"
        }
    }
    "#;

    let mapping = json_to_mapping(json).unwrap();
    assert_eq!(mapping.len(), 2);
    assert_eq!(mapping.get("x").unwrap().topic, "/x");
    assert_eq!(mapping.get("x").unwrap().msg_type, ROSMsgType::Int32);
    assert_eq!(mapping.get("y").unwrap().topic, "/y");
    assert_eq!(mapping.get("y").unwrap().msg_type, ROSMsgType::String);
}

#[test]
fn mapping_errors() {
    assert_eq!(
        json_to_mapping("[1, 2]").err(),
        Some(RosMappingError::NotObject)
    );
    assert_eq!(
        json_to_mapping(r#"{ "x": { "topic": "/x" } }"#).err(),
        Some(RosMappingError::MissingField("x".to_string()))
    );
    assert_eq!(
        json_to_mapping(r#"{ "x": { "topic": 1, "msg_type": "Bool" } }"#).err(),
        Some(RosMappingError::FieldsNotStrings("x".to_string()))
    );
    assert_eq!(
        json_to_mapping(r#"{ x: { topic: "/x", msg_type: "Pose" } }"#).err(),
        Some(RosMappingError::UnsupportedType("Pose".to_string()))
    );
    assert!(matches!(json_to_mapping("{ x: "), Err(RosMappingError::Parse(_))));
    assert_eq!(
        RosMappingError::MissingField("x".to_string()).message(),
        "Missing topic or msg_type for variable 'x'"
    );
}

#[test]
fn ros_message_types_by_name() {
    assert_eq!(string_to_ros_msg_type("HumanBodyPart"), Ok(ROSMsgType::HumanBodyPart));
    assert_eq!(string_to_ros_msg_type("Float32"), Ok(ROSMsgType::Float32));
    assert_eq!(
        string_to_ros_msg_type("Int128"),
        Err(RosMappingError::UnsupportedType("Int128".to_string()))
    );
}

#[test]
fn bench_inputs_count_up_in_pairs() {
    let inputs = constraint_bench_inputs(3);
    assert_eq!(inputs.len(), 3);
    assert_eq!(inputs[2].get(&v("x")), Some(&Value::Int(4)));
    assert_eq!(inputs[2].get(&v("y")), Some(&Value::Int(5)));
    assert!(constraint_bench_inputs(-2).is_empty());
    let _ = StreamType::Int;
}

#[test]
fn values_convert_only_from_their_own_kind() {
    assert_eq!(Value::Int(7).as_int(), Some(7));
    assert_eq!(Value::Bool(true).as_int(), None);
    assert_eq!(Value::Bool(false).as_bool(), Some(false));
    assert_eq!(Value::Str("s".to_string()).as_str(), Some("s".to_string()));
    assert_eq!(Value::Int(1).as_str(), None);
    assert!(Value::Unit.is_unit());
    assert!(!Value::Unknown.is_unit());
    assert_eq!(v("abc").as_string(), "abc");
}

#[test]
fn the_benchmark_driver_stores_then_steps_and_cleans_up_each_round() {
    let spec = parse_str(spec_simple_add_decomposable()).unwrap();
    let mut runtime = RecordingRuntime { calls: vec![] };
    monitor_outputs_untyped_constraints_no_overhead(&mut runtime, spec, 2);
    assert_eq!(runtime.calls.len(), 5);
    assert!(matches!(&runtime.calls[0], RuntimeCall::Store(s) if s.output_vars == vec![v("w"), v("v")]));
    match &runtime.calls[3] {
        RuntimeCall::Step(inputs) => {
            assert_eq!(inputs.get(&v("x")), Some(&Value::Int(2)));
            assert_eq!(inputs.get(&v("y")), Some(&Value::Int(3)));
        }
        _ => panic!("expected a step"),
    }
    assert!(matches!(runtime.calls[2], RuntimeCall::Cleanup));
    assert!(matches!(runtime.calls[4], RuntimeCall::Cleanup));
}

#[test]
fn parse_errors_name_the_input() {
    let e = parse_str("in x\nout = y").unwrap_err();
    assert_eq!(e.cause, ParseError::Syntax);
    assert_eq!(e.message(), "Failed to parse input in x\nout = y");
    assert_eq!(parse_str("in #").unwrap_err().cause, ParseError::Lexical);
}

#[test]
fn mappings_are_read_from_members() {
    let members = vec![
        (
            "x".to_string(),
            vec![
                ("topic".to_string(), JsonField::Str("/x".to_string())),
                ("msg_type".to_string(), JsonField::Str("Bool".to_string())),
            ],
        ),
        ("y".to_string(), vec![("topic".to_string(), JsonField::Str("/y".to_string()))]),
    ];
    assert_eq!(
        mapping_from_members(&members).err(),
        Some(RosMappingError::MissingField("y".to_string()))
    );
    let m = mapping_from_members(&members[..1].to_vec()).unwrap();
    assert_eq!(m.get("x").unwrap().msg_type, ROSMsgType::Bool);
}
