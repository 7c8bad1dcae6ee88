use rrdf::expression::Expr;
use rrdf::namespace::Namespace;
use rrdf::object::Object;
use rrdf::sparql::expression;

fn render(e: &Expr) -> String {
    match e {
        Expr::ConstantExpr(Object::IntValue(n)) => format!("{}", n),
        Expr::ConstantExpr(Object::IriValue(v)) => format!("<{}>", v),
        Expr::ConstantExpr(_) => "const".to_string(),
        Expr::VariableExpr(v) => format!("?{}", v),
        Expr::CallExpr(f, args) | Expr::ExtensionExpr(f, args) => {
            let parts: Vec<String> = args.iter().map(render).collect();
            format!("{}({})", f, parts.join(","))
        },
    }
}

fn parse(text: &str) -> (String, usize) {
    let chars: Vec<char> = text.chars().collect();
    let ns: Vec<Namespace> = Vec::new();
    match expression(&chars, 0, &ns) {
        Ok((e, end)) => (render(&e), end),
        Err(f) => panic!("{} failed at {}", text, f.pos),
    }
}

#[test]
fn multiplication_binds_tighter() {
    assert_eq!(parse("1 + 2 * 3"), ("op_add(1,op_multiply(2,3))".to_string(), 9));
}

#[test]
fn subtraction_is_left_associative() {
    assert_eq!(parse("1 - 2 - 3").0, "op_subtract(op_subtract(1,2),3)");
}

#[test]
fn and_binds_tighter_than_or() {
    assert_eq!(parse("?a || ?b && ?c").0, "op_or(?a,op_and(?b,?c))");
}

#[test]
fn brackets_group() {
    assert_eq!(parse("(1 + 2) * 3").0, "op_multiply(op_add(1,2),3)");
}

#[test]
fn relational_operators() {
    assert_eq!(parse("?x <= 3").0, "op_less_than_or_equal(?x,3)");
    assert_eq!(parse("?x != 3").0, "op_not_equals(?x,3)");
    assert_eq!(parse("?x NOT IN ?y").0, "not_in_op(?x,?y)");
}

#[test]
fn unary_operators() {
    assert_eq!(parse("!?x").0, "op_not(?x)");
    assert_eq!(parse("-?x").0, "op_unary_minus(?x)");
    assert_eq!(parse("+?x").0, "?x");
}

#[test]
fn built_in_calls_by_arity() {
    assert_eq!(parse("substr(?s, 1, 2)").0, "substr3_fn(?s,1,2)");
    assert_eq!(parse("SUBSTR(?s, 1)").0, "substr2_fn(?s,1)");
    assert_eq!(parse("bound(?s)").0, "bound_fn(?s)");
}

#[test]
fn extension_call_and_iri() {
    assert_eq!(parse("<http://x/f>(?a, 2)").0, "http://x/f(?a,2)");
    assert_eq!(parse("<http://x/f>").0, "<http://x/f>");
}

#[test]
fn trailing_white_space_is_consumed() {
    assert_eq!(parse("?x  # note\n ").1, 12);
}
