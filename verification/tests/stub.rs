use droplet_core::stub::{
    build_stub, is_cx_param, last_ident, plan_tool, python_return_type, python_type, FnParam,
    ReturnSpec, TypeExpr,
};

fn path(name: &str) -> TypeExpr {
    TypeExpr::Path { last: Some(name.to_string()), first_arg: None }
}

fn generic(name: &str, arg: TypeExpr) -> TypeExpr {
    TypeExpr::Path { last: Some(name.to_string()), first_arg: Some(Box::new(arg)) }
}

fn param(name: &str, ty: TypeExpr) -> FnParam {
    FnParam::Typed { ident: Some(name.to_string()), ty }
}

fn cx() -> FnParam {
    param("cx", TypeExpr::Reference { mutable: true, inner: Box::new(path("ToolCx")) })
}

fn result_of(ty: TypeExpr) -> ReturnSpec {
    ReturnSpec::Type(generic("Result", ty))
}

#[test]
fn leaf_types_map_to_python() {
    assert_eq!(python_type(&path("String")), "str");
    assert_eq!(python_type(&path("str")), "str");
    assert_eq!(python_type(&path("i64")), "int");
    assert_eq!(python_type(&path("f64")), "float");
    assert_eq!(python_type(&path("bool")), "bool");
    assert_eq!(python_type(&path("Rows")), "list[dict]");
    assert_eq!(python_type(&path("Dataset")), "Dataset");
    assert_eq!(python_type(&path("u8")), "object");
    assert_eq!(python_type(&TypeExpr::Other), "object");
    assert_eq!(python_type(&TypeExpr::Path { last: None, first_arg: None }), "object");
}

#[test]
fn references_vecs_and_tuples() {
    let s = TypeExpr::Reference { mutable: false, inner: Box::new(path("str")) };
    assert_eq!(python_type(&s), "str");
    assert_eq!(python_type(&generic("Vec", path("String"))), "list[str]");
    assert_eq!(python_type(&path("Vec")), "object");
    let pair = TypeExpr::Tuple(vec![path("String"), path("Dataset")]);
    assert_eq!(python_type(&pair), "tuple[str, Dataset]");
    assert_eq!(python_type(&generic("Vec", pair)), "list[tuple[str, Dataset]]");
    assert_eq!(python_type(&TypeExpr::Tuple(vec![])), "tuple[]");
}

#[test]
fn return_types() {
    assert_eq!(python_return_type(&ReturnSpec::Unit), "None");
    assert_eq!(python_return_type(&result_of(path("Rows"))), "list[dict]");
    assert_eq!(python_return_type(&ReturnSpec::Type(path("i64"))), "int");
    assert_eq!(python_return_type(&ReturnSpec::Type(generic("Option", path("i64")))), "object");
}

#[test]
fn cx_parameter_is_recognised() {
    assert!(is_cx_param(&cx()));
    let shared = param("cx", TypeExpr::Reference { mutable: false, inner: Box::new(path("ToolCx")) });
    assert!(!is_cx_param(&shared));
    assert!(!is_cx_param(&param("text", path("String"))));
    assert!(!is_cx_param(&FnParam::Receiver));
    assert_eq!(last_ident(&TypeExpr::Reference { mutable: true, inner: Box::new(path("ToolCx")) }), Some("ToolCx".to_string()));
    assert_eq!(last_ident(&TypeExpr::Other), None);
}

#[test]
fn build_stub_pairs_names_and_types() {
    let stub = build_stub(
        "query",
        &["path".to_string(), "sql".to_string()],
        &[path("String"), path("String")],
        "list[dict]",
    );
    assert_eq!(stub, "def query(path: str, sql: str) -> list[dict]: ...");
    assert_eq!(build_stub("noop", &[], &[], "None"), "def noop() -> None: ...");
}

#[test]
fn macro_generates_stub_and_dispatch() {
    let plan = plan_tool("echo", &[param("text", path("String"))], &result_of(path("String"))).unwrap();
    assert!(!plan.cx_first);
    assert_eq!(plan.args, vec!["text".to_string()]);
    assert_eq!(plan.stub, "def echo(text: str) -> str: ...");
}

#[test]
fn query_tool_is_registered_with_stub() {
    let plan = plan_tool(
        "query",
        &[cx(), param("path", path("String")), param("sql", path("String"))],
        &result_of(path("Rows")),
    )
    .unwrap();
    assert!(plan.cx_first);
    assert_eq!(plan.args, vec!["path".to_string(), "sql".to_string()]);
    assert_eq!(plan.stub, "def query(path: str, sql: str) -> list[dict]: ...");
}

#[test]
fn tools_cannot_take_self() {
    let err = plan_tool("m", &[FnParam::Receiver], &ReturnSpec::Unit).err().unwrap();
    assert_eq!(err, "tools cannot take `self`");
}

#[test]
fn tool_parameters_must_be_identifiers() {
    let bad = FnParam::Typed { ident: None, ty: path("String") };
    let err = plan_tool("m", &[param("a", path("i64")), bad, FnParam::Receiver], &ReturnSpec::Unit)
        .err()
        .unwrap();
    assert_eq!(err, "tool parameters must be simple identifiers");
}
