use trustworthiness_checker::ast::{LOLASpecification, NumericalBinOp, SBinOp, SExpr, SStmt};
use trustworthiness_checker::parser::{
    ParseError, create_lola_spec, parse_sexpr, parse_sstmt, parse_sstmts, parse_str,
};
use trustworthiness_checker::values::{StreamType, Value};
use trustworthiness_checker::variables::VarName;
use trustworthiness_checker::varmap::VarMap;

fn spec_simple_add_monitor() -> &'static str {
    "in x\nin y\nout z\nz = x + y"
}

fn spec_simple_add_monitor_typed() -> &'static str {
    "in x: Int\nin y: Int\nout z: Int\nz = x + y"
}

fn spec_simple_add_monitor_typed_float() -> &'static str {
    "in x: Float\nin y: Float\nout z: Float\nz = x + y"
}

fn value_to_string(v: &Value) -> String {
    match v {
        Value::Int(i) => format!("Int({})", i),
        Value::Float(d) => format!("Float({:?})", d.text().parse::<f64>().unwrap()),
        Value::Str(s) => format!("Str({:?})", s),
        Value::Bool(b) => format!("Bool({})", b),
        Value::List(vs) => format!(
            "List([{}])",
            vs.iter().map(value_to_string).collect::<Vec<_>>().join(", ")
        ),
        Value::Unknown => "Unknown".to_string(),
        Value::Unit => "Unit".to_string(),
    }
}

fn var_to_string(v: &VarName) -> String {
    format!("VarName::new({:?})", v.name())
}

fn expr_to_string(e: &SExpr) -> String {
    match e {
        SExpr::Val(v) => format!("Val({})", value_to_string(v)),
        SExpr::Var(x) => format!("Var({})", var_to_string(x)),
        SExpr::BinOp(a, b, op) => {
            format!("BinOp({}, {}, {:?})", expr_to_string(a), expr_to_string(b), op)
        }
        SExpr::If(c, t, f) => format!(
            "If({}, {}, {})",
            expr_to_string(c),
            expr_to_string(t),
            expr_to_string(f)
        ),
        SExpr::SIndex(a, k) => format!("SIndex({}, {})", expr_to_string(a), k),
        SExpr::Not(a) => format!("Not({})", expr_to_string(a)),
    }
}

fn type_to_string(t: &Option<StreamType>) -> String {
    match t {
        Some(t) => format!("Some({:?})", t),
        None => "None".to_string(),
    }
}

fn stmt_to_string(s: &SStmt) -> String {
    match s {
        SStmt::Input(x, t) => format!("Input({}, {})", var_to_string(x), type_to_string(t)),
        SStmt::Output(x, t) => format!("Output({}, {})", var_to_string(x), type_to_string(t)),
        SStmt::Aux(x, t) => format!("Aux({}, {})", var_to_string(x), type_to_string(t)),
        SStmt::Assignment(x, e) => {
            format!("Assignment({}, {})", var_to_string(x), expr_to_string(e))
        }
    }
}

fn presult_to_string(r: &Result<SExpr, ParseError>) -> String {
    match r {
        Ok(e) => format!("Ok({})", expr_to_string(e)),
        Err(e) => format!("Err({:?})", e),
    }
}

fn stmt_result_to_string(r: &Result<SStmt, ParseError>) -> String {
    match r {
        Ok(s) => format!("Ok({})", stmt_to_string(s)),
        Err(e) => format!("Err({:?})", e),
    }
}

fn stmts_result_to_string(r: &Result<Vec<SStmt>, ParseError>) -> String {
    match r {
        Ok(ss) => format!(
            "Ok([{}])",
            ss.iter().map(stmt_to_string).collect::<Vec<_>>().join(", ")
        ),
        Err(e) => format!("Err({:?})", e),
    }
}

fn add_expr(a: &str, b: &str) -> SExpr {
    SExpr::BinOp(
        Box::new(SExpr::Var(VarName::new(a))),
        Box::new(SExpr::Var(VarName::new(b))),
        SBinOp::NOp(NumericalBinOp::Add),
    )
}

fn simple_add_spec(types: Option<StreamType>) -> LOLASpecification {
    let mut exprs = VarMap::new();
    exprs.insert(VarName::new("z"), add_expr("x", "y"));
    let mut type_annotations = VarMap::new();
    if let Some(t) = types {
        type_annotations.insert(VarName::new("x"), t);
        type_annotations.insert(VarName::new("y"), t);
        type_annotations.insert(VarName::new("z"), t);
    }
    LOLASpecification {
        input_vars: vec![VarName::new("x"), VarName::new("y")],
        output_vars: vec![VarName::new("z")],
        aux_info: vec![],
        exprs,
        type_annotations,
    }
}

#[test]
fn test_streamdata() {
    let parsed = parse_sexpr("42");
    let exp = "Ok(Val(Int(42)))";
    assert_eq!(presult_to_string(&parsed), exp);

    let parsed = parse_sexpr("42.0");
    let exp = "Ok(Val(Float(42.0)))";
    assert_eq!(presult_to_string(&parsed), exp);

    let parsed = parse_sexpr("\"abc2d\"");
    let exp = "Ok(Val(Str(\"abc2d\")))";
    assert_eq!(presult_to_string(&parsed), exp);

    let parsed = parse_sexpr("true");
    let exp = "Ok(Val(Bool(true)))";
    assert_eq!(presult_to_string(&parsed), exp);

    let parsed = parse_sexpr("false");
    let exp = "Ok(Val(Bool(false)))";
    assert_eq!(presult_to_string(&parsed), exp);

    let parsed = parse_sexpr("\"x+y\"");
    let exp = "Ok(Val(Str(\"x+y\")))";
    assert_eq!(presult_to_string(&parsed), exp);
}

#[test]
fn test_sexpr() {
    let parsed = parse_sexpr("1 + 2");
    let exp = "Ok(BinOp(Val(Int(1)), Val(Int(2)), NOp(Add)))";
    assert_eq!(presult_to_string(&parsed), exp);

    let parsed = parse_sexpr("1 + 2 * 3");
    let exp = "Ok(BinOp(Val(Int(1)), BinOp(Val(Int(2)), Val(Int(3)), NOp(Mul)), NOp(Add)))";
    assert_eq!(presult_to_string(&parsed), exp);

    let parsed = parse_sexpr("x + (y + 2)");
    let exp = "Ok(BinOp(Var(VarName::new(\"x\")), BinOp(Var(VarName::new(\"y\")), Val(Int(2)), NOp(Add)), NOp(Add)))";
    assert_eq!(presult_to_string(&parsed), exp);

    let parsed = parse_sexpr("if true then 1 else 2");
    let exp = "Ok(If(Val(Bool(true)), Val(Int(1)), Val(Int(2))))";
    assert_eq!(presult_to_string(&parsed), exp);

    let parsed = parse_sexpr("(x)[-1]");
    let exp = "Ok(SIndex(Var(VarName::new(\"x\")), -1))";
    assert_eq!(presult_to_string(&parsed), exp);

    let parsed = parse_sexpr("(x + y)[-3]");
    let exp =
        "Ok(SIndex(BinOp(Var(VarName::new(\"x\")), Var(VarName::new(\"y\")), NOp(Add)), -3))";
    assert_eq!(presult_to_string(&parsed), exp);

    let parsed = parse_sexpr("1 + (x)[-1]");
    let exp = "Ok(BinOp(Val(Int(1)), SIndex(Var(VarName::new(\"x\")), -1), NOp(Add)))";
    assert_eq!(presult_to_string(&parsed), exp);

    let parsed = parse_sexpr("\"test\"");
    let exp = "Ok(Val(Str(\"test\")))";
    assert_eq!(presult_to_string(&parsed), exp);

    let parsed = parse_sexpr("(stage == \"m\")");
    let exp = "Ok(BinOp(Var(VarName::new(\"stage\")), Val(Str(\"m\")), COp(Eq)))";
    assert_eq!(presult_to_string(&parsed), exp);
}

#[test]
fn test_input_decl() {
    let parsed = parse_sstmt("in x");
    let exp = "Ok(Input(VarName::new(\"x\"), None))";
    assert_eq!(stmt_result_to_string(&parsed), exp);
}

#[test]
fn test_typed_input_decl() {
    let parsed = parse_sstmt("in x: Int");
    let exp = "Ok(Input(VarName::new(\"x\"), Some(Int)))";
    assert_eq!(stmt_result_to_string(&parsed), exp);

    let parsed = parse_sstmt("in x: Float");
    let exp = "Ok(Input(VarName::new(\"x\"), Some(Float)))";
    assert_eq!(stmt_result_to_string(&parsed), exp);
}

#[test]
fn test_input_decls() {
    let parsed = parse_sstmts("");
    let exp = "Ok([])";
    assert_eq!(stmts_result_to_string(&parsed), exp);

    let parsed = parse_sstmts("in x");
    let exp = r#"Ok([Input(VarName::new("x"), None)])"#;
    assert_eq!(stmts_result_to_string(&parsed), exp);

    let parsed = parse_sstmts("in x\nin y");
    let exp = r#"Ok([Input(VarName::new("x"), None), Input(VarName::new("y"), None)])"#;
    assert_eq!(stmts_result_to_string(&parsed), exp);
}

#[test]
fn test_parse_lola_simple_add() {
    let input = spec_simple_add_monitor();
    let simple_add_spec = simple_add_spec(None);
    let spec = parse_str(input);
    assert!(spec.is_ok());
    let spec = spec.unwrap();
    assert_eq!(spec, simple_add_spec);
}

#[test]
fn test_parse_lola_simple_add_typed() {
    let input = spec_simple_add_monitor_typed();
    let simple_add_spec = simple_add_spec(Some(StreamType::Int));
    let spec = parse_str(input);
    assert!(spec.is_ok());
    let spec = spec.unwrap();
    assert_eq!(spec, simple_add_spec);
}

#[test]
fn test_parse_lola_simple_add_float_typed() {
    let input = spec_simple_add_monitor_typed_float();
    let simple_add_spec = simple_add_spec(Some(StreamType::Float));
    let spec = parse_str(input);
    assert!(spec.is_ok());
    let spec = spec.unwrap();
    assert_eq!(spec, simple_add_spec);
}

#[test]
fn parser_precedence_and_associativity() {
    let parsed = parse_sexpr("a || b && c == 1 + 2 * 3");
    let exp = "Ok(BinOp(Var(VarName::new(\"a\")), BinOp(Var(VarName::new(\"b\")), BinOp(Var(VarName::new(\"c\")), BinOp(Val(Int(1)), BinOp(Val(Int(2)), Val(Int(3)), NOp(Mul)), NOp(Add)), COp(Eq)), BOp(And)), BOp(Or)))";
    assert_eq!(presult_to_string(&parsed), exp);

    let parsed = parse_sexpr("10 - 4 - 3");
    let exp = "Ok(BinOp(BinOp(Val(Int(10)), Val(Int(4)), NOp(Sub)), Val(Int(3)), NOp(Sub)))";
    assert_eq!(presult_to_string(&parsed), exp);

    let parsed = parse_sexpr("!x && y");
    let exp = "Ok(BinOp(Not(Var(VarName::new(\"x\"))), Var(VarName::new(\"y\")), BOp(And)))";
    assert_eq!(presult_to_string(&parsed), exp);

    let parsed = parse_sexpr("s ++ \"!\" <= t");
    let exp = "Ok(BinOp(BinOp(Var(VarName::new(\"s\")), Val(Str(\"!\")), SOp(Concat)), Var(VarName::new(\"t\")), COp(Le)))";
    assert_eq!(presult_to_string(&parsed), exp);

    let parsed = parse_sexpr("x[2] % -5");
    let exp = "Ok(BinOp(SIndex(Var(VarName::new(\"x\")), 2), Val(Int(-5)), NOp(Mod)))";
    assert_eq!(presult_to_string(&parsed), exp);
}

#[test]
fn parser_errors() {
    assert_eq!(parse_sexpr("1 +"), Err(ParseError::Syntax));
    assert_eq!(parse_sexpr("(1"), Err(ParseError::Syntax));
    assert_eq!(parse_sexpr("1 2"), Err(ParseError::Syntax));
    assert_eq!(parse_sexpr(""), Err(ParseError::Syntax));
    assert_eq!(parse_sexpr("x $ y"), Err(ParseError::Lexical));
    assert_eq!(parse_sexpr("\"unterminated"), Err(ParseError::Lexical));
    assert_eq!(parse_sexpr("99999999999999999999"), Err(ParseError::Lexical));
    assert_eq!(parse_sstmt("in x: Number"), Err(ParseError::Syntax));
    assert_eq!(parse_sstmt("in"), Err(ParseError::Syntax));
    assert!(parse_str("in x\nout y\ny = ").is_err());
}

#[test]
fn create_lola_spec_keeps_last_assignment_and_aux() {
    let stmts = parse_sstmts("in a\naux b: Bool\nout c\nb = a\nc = b\nb = !a").unwrap();
    let spec = create_lola_spec(&stmts);
    assert_eq!(spec.input_vars, vec![VarName::new("a")]);
    assert_eq!(spec.output_vars, vec![VarName::new("b"), VarName::new("c")]);
    assert_eq!(spec.aux_info, vec![VarName::new("b")]);
    assert_eq!(
        spec.exprs.get(&VarName::new("b")),
        Some(&SExpr::Not(Box::new(SExpr::Var(VarName::new("a")))))
    );
    assert_eq!(spec.exprs.len(), 2);
    assert_eq!(spec.type_annotations.get(&VarName::new("b")), Some(&StreamType::Bool));
    assert_eq!(spec.type_annotations.get(&VarName::new("a")), None);
}
