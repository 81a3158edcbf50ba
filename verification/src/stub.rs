//! Tool signatures: which parameters the sandbox sees, and the Python stub line
//! `def NAME(p: T, ...) -> R: ...` generated from a tool function's Rust signature.
//!
//! A Rust type is held as a `TypeExpr`: a reference, a tuple, a path (its last segment and
//! that segment's first generic argument when it is a type), or anything else.
use vstd::prelude::*;

use crate::text::join;

verus! {

/// The parts of a Rust type that stub generation reads.
#[derive(Debug)]
pub enum TypeExpr {
    /// `&T` or `&mut T`.
    Reference { mutable: bool, inner: Box<TypeExpr> },
    /// `(T1, T2, ...)`.
    Tuple(Vec<TypeExpr>),
    /// A path type: the identifier of its last segment (none for an empty path) and the first
    /// angle-bracketed argument of that segment when it is a type.
    Path { last: Option<String>, first_arg: Option<Box<TypeExpr>> },
    /// Any other type.
    Other,
}

/// A parameter of a tool function.
#[derive(Debug)]
pub enum FnParam {
    /// `self` in any form.
    Receiver,
    /// `pattern: ty`; `ident` is the pattern's identifier when the pattern is a plain one.
    Typed { ident: Option<String>, ty: TypeExpr },
}

/// The declared output of a tool function.
#[derive(Debug)]
pub enum ReturnSpec {
    /// No `->` at all.
    Unit,
    /// `-> ty`.
    Type(TypeExpr),
}

/// The Python name of a leaf Rust type name.
pub open spec fn leaf_python(name: Seq<char>) -> Seq<char> {
    if name == "String"@ || name == "str"@ {
        "str"@
    } else if name == "i64"@ {
        "int"@
    } else if name == "f64"@ {
        "float"@
    } else if name == "bool"@ {
        "bool"@
    } else if name == "Rows"@ {
        "list[dict]"@
    } else if name == "Dataset"@ {
        "Dataset"@
    } else {
        "object"@
    }
}

/// The Python type of a Rust type: references are looked through, tuples become
/// `tuple[...]`, `Vec<T>` becomes `list[T]`, and unknown types are `object`.
pub open spec fn python_type_spec(ty: TypeExpr) -> Seq<char>
    decreases ty, 1int,
{
    match ty {
        TypeExpr::Reference { inner, .. } => python_type_spec(*inner),
        TypeExpr::Tuple(elems) => "tuple["@ + join(python_types_spec(elems@), ", "@) + "]"@,
        TypeExpr::Path { last, first_arg } => match last {
            None => "object"@,
            Some(name) => if name@ == "Vec"@ && first_arg is Some {
                "list["@ + python_type_spec(*first_arg->0) + "]"@
            } else {
                leaf_python(name@)
            },
        },
        TypeExpr::Other => "object"@,
    }
}

/// The Python types of a sequence of Rust types.
pub open spec fn python_types_spec(tys: Seq<TypeExpr>) -> Seq<Seq<char>>
    decreases tys, 0int,
{
    if tys.len() == 0 {
        Seq::empty()
    } else {
        python_types_spec(tys.drop_last()).push(python_type_spec(tys.last()))
    }
}

proof fn lemma_python_types(tys: Seq<TypeExpr>)
    ensures
        python_types_spec(tys).len() == tys.len(),
        forall|k: int| 0 <= k < tys.len() ==> #[trigger] python_types_spec(tys)[k] == python_type_spec(tys[k]),
    decreases tys.len(),
{
    if tys.len() > 0 {
        lemma_python_types(tys.drop_last());
        assert forall|k: int| 0 <= k < tys.len() implies #[trigger] python_types_spec(tys)[k] == python_type_spec(tys[k]) by {
            if k < tys.len() - 1 {
                assert(tys.drop_last()[k] == tys[k]);
            }
        }
    }
}

/// The Python return type: the success type of a `Result<R, _>`, the type itself otherwise,
/// and `None` without a return type.
pub open spec fn python_return_spec(output: ReturnSpec) -> Seq<char> {
    match output {
        ReturnSpec::Unit => "None"@,
        ReturnSpec::Type(ty) => match ty {
            TypeExpr::Path { last: Some(name), first_arg: Some(inner) } => if name@ == "Result"@ {
                python_type_spec(*inner)
            } else {
                python_type_spec(ty)
            },
            _ => python_type_spec(ty),
        },
    }
}

/// A tool returning `Result<R, E>` is typed in Python by `R` alone, whatever `R` is; any
/// other declared return type is typed as itself, and no return type is `None`.
pub proof fn law_return_type_is_success_type(name: String, inner: TypeExpr, other: TypeExpr)
    ensures
        name@ == "Result"@ ==> python_return_spec(
            ReturnSpec::Type(TypeExpr::Path { last: Some(name), first_arg: Some(Box::new(inner)) }),
        ) == python_type_spec(inner),
        !(other matches TypeExpr::Path { last: Some(n), first_arg: Some(_) } && n@ == "Result"@)
            ==> python_return_spec(ReturnSpec::Type(other)) == python_type_spec(other),
        python_return_spec(ReturnSpec::Unit) == "None"@,
{
}

/// `Vec<T>` is `list[T]` and `&T` is `T`, for every `T`; the leaf names map to their Python
/// builtins and any unknown name to `object`.
pub proof fn law_python_type_structure(elem: TypeExpr, vec: String, mutable: bool, leaf: String)
    ensures
        vec@ == "Vec"@ ==> python_type_spec(
            TypeExpr::Path { last: Some(vec), first_arg: Some(Box::new(elem)) },
        ) == "list["@ + python_type_spec(elem) + "]"@,
        python_type_spec(TypeExpr::Reference { mutable, inner: Box::new(elem) }) == python_type_spec(elem),
        (leaf@ == "String"@ || leaf@ == "str"@) ==> python_type_spec(TypeExpr::Path { last: Some(leaf), first_arg: None }) == "str"@,
        leaf@ == "i64"@ ==> python_type_spec(TypeExpr::Path { last: Some(leaf), first_arg: None }) == "int"@,
        leaf@ == "f64"@ ==> python_type_spec(TypeExpr::Path { last: Some(leaf), first_arg: None }) == "float"@,
        leaf@ == "bool"@ ==> python_type_spec(TypeExpr::Path { last: Some(leaf), first_arg: None }) == "bool"@,
        leaf@ == "Rows"@ ==> python_type_spec(TypeExpr::Path { last: Some(leaf), first_arg: None }) == "list[dict]"@,
        python_type_spec(TypeExpr::Other) == "object"@,
{
    reveal_strlit("String");
    reveal_strlit("str");
    reveal_strlit("i64");
    reveal_strlit("f64");
    reveal_strlit("bool");
    reveal_strlit("Rows");
    reveal_strlit("Vec");
    if leaf@ == "i64"@ {
        assert(leaf@[0] != "str"@[0]);
        assert(leaf@.len() != "String"@.len());
    }
    if leaf@ == "f64"@ {
        assert(leaf@[0] != "str"@[0]);
        assert(leaf@[0] != "i64"@[0]);
        assert(leaf@.len() != "String"@.len());
    }
    if leaf@ == "Rows"@ {
        assert(leaf@[0] != "bool"@[0]);
        assert(leaf@.len() != "String"@.len());
        assert(leaf@.len() != "str"@.len());
        assert(leaf@.len() != "i64"@.len());
        assert(leaf@.len() != "f64"@.len());
    }
}

/// The identifier of a type's last path segment, looking through references.
pub open spec fn last_ident_spec(ty: TypeExpr) -> Option<Seq<char>>
    decreases ty,
{
    match ty {
        TypeExpr::Reference { inner, .. } => last_ident_spec(*inner),
        TypeExpr::Path { last, .. } => match last {
            Some(name) => Some(name@),
            None => None,
        },
        _ => None,
    }
}

/// The parameter is the host context: a `&mut` reference to a type named `ToolCx`.
pub open spec fn is_cx_param_spec(p: FnParam) -> bool {
    match p {
        FnParam::Typed { ty, .. } => match ty {
            TypeExpr::Reference { mutable, inner } => mutable && last_ident_spec(*inner) == Some(
                "ToolCx"@,
            ),
            _ => false,
        },
        FnParam::Receiver => false,
    }
}

/// One stub parameter, `name: type`.
pub open spec fn stub_param(name: Seq<char>, ty: TypeExpr) -> Seq<char> {
    name + ": "@ + python_type_spec(ty)
}

/// The stub parameters: names and types paired in order, as many as the shorter list.
pub open spec fn stub_params(idents: Seq<String>, types: Seq<TypeExpr>) -> Seq<Seq<char>> {
    let n = if idents.len() < types.len() { idents.len() } else { types.len() };
    Seq::new(n, |i: int| stub_param(idents[i]@, types[i]))
}

/// The stub line `def NAME(params) -> RET: ...`.
pub open spec fn stub_line(name: Seq<char>, params: Seq<Seq<char>>, ret: Seq<char>) -> Seq<char> {
    "def "@ + name + "("@ + join(params, ", "@) + ") -> "@ + ret + ": ..."@
}

/// What the sandbox sees of a tool: whether the first parameter is the host context (passed
/// through, not shown), the names of the other parameters in order, and the stub line.
#[derive(Debug)]
pub struct ToolPlan {
    pub cx_first: bool,
    pub args: Vec<String>,
    pub stub: String,
}

/// The message for a tool that takes `self`.
pub open spec fn receiver_message() -> Seq<char> {
    "tools cannot take `self`"@
}

/// The message for a tool parameter whose pattern is not a plain identifier.
pub open spec fn pattern_message() -> Seq<char> {
    "tool parameters must be simple identifiers"@
}

/// The first parameter is the host context.
pub open spec fn cx_first_spec(params: Seq<FnParam>) -> bool {
    params.len() > 0 && is_cx_param_spec(params[0])
}

/// The parameters the sandbox sees: all but a leading host context.
pub open spec fn visible_params(params: Seq<FnParam>) -> Seq<FnParam> {
    if cx_first_spec(params) {
        params.drop_first()
    } else {
        params
    }
}

/// A visible parameter that a tool may have: a plain identifier with a type.
pub open spec fn acceptable_param(p: FnParam) -> bool {
    p matches FnParam::Typed { ident: Some(_), .. }
}

/// The error a refused parameter yields.
pub open spec fn param_error(p: FnParam) -> Seq<char> {
    match p {
        FnParam::Receiver => receiver_message(),
        _ => pattern_message(),
    }
}

/// The name of an acceptable parameter.
pub open spec fn param_name(p: FnParam) -> Seq<char> {
    match p {
        FnParam::Typed { ident: Some(n), .. } => n@,
        _ => Seq::empty(),
    }
}

/// The stub fragment of an acceptable parameter.
pub open spec fn param_stub(p: FnParam) -> Seq<char> {
    match p {
        FnParam::Typed { ident: Some(n), ty } => stub_param(n@, ty),
        _ => Seq::empty(),
    }
}

/// The plan of a tool, or the error of the first refused visible parameter.
pub open spec fn plan_outcome(
    r: Result<ToolPlan, String>,
    name: Seq<char>,
    params: Seq<FnParam>,
    output: ReturnSpec,
) -> bool {
    let vis = visible_params(params);
    if forall|k: int| 0 <= k < vis.len() ==> acceptable_param(#[trigger] vis[k]) {
        r matches Ok(plan) && plan.cx_first == cx_first_spec(params) && plan.args@.len()
            == vis.len() && (forall|k: int|
            0 <= k < vis.len() ==> #[trigger] plan.args@[k]@ == param_name(vis[k]))
            && plan.stub@ == stub_line(
            name,
            vis.map_values(|p: FnParam| param_stub(p)),
            python_return_spec(output),
        )
    } else {
        exists|k: int|
            0 <= k < vis.len() && !acceptable_param(#[trigger] vis[k]) && (forall|j: int|
                0 <= j < k ==> acceptable_param(#[trigger] vis[j])) && (r matches Err(m) && m@
                == param_error(vis[k]))
    }
}

/// A tool's plan when every parameter is a plain identifier: a leading `&mut ToolCx` is
/// passed through unseen, every other parameter is shown in order, and the stub line is
/// `def NAME(p1: T1, p2: T2, ...) -> R: ...` with each parameter's Python type and the Python
/// return type.
pub proof fn law_plan_shows_every_visible_param(
    r: Result<ToolPlan, String>,
    name: Seq<char>,
    params: Seq<FnParam>,
    output: ReturnSpec,
)
    requires
        plan_outcome(r, name, params, output),
        forall|k: int| 0 <= k < params.len() ==> (#[trigger] params[k]) matches FnParam::Typed {
            ident: Some(_),
            ..
        },
    ensures
        ({
            let skip: int = if params.len() > 0 && (params[0]->ty matches TypeExpr::Reference {
                mutable: true,
                inner,
            } && last_ident_spec(*inner) == Some("ToolCx"@)) {
                1
            } else {
                0
            };
            let shown = Seq::new(
                (params.len() - skip) as nat,
                |k: int| params[k + skip]->ident->0@ + ": "@ + python_type_spec(params[k + skip]->ty),
            );
            &&& r is Ok
            &&& r->Ok_0.cx_first == (skip == 1)
            &&& r->Ok_0.args@.len() == params.len() - skip
            &&& forall|k: int|
                0 <= k < params.len() - skip ==> #[trigger] r->Ok_0.args@[k]@ == params[k
                    + skip]->ident->0@
            &&& r->Ok_0.stub@ == "def "@ + name + "("@ + join(shown, ", "@) + ") -> "@
                + python_return_spec(output) + ": ..."@
        }),
{
    let skip: int = if cx_first_spec(params) { 1 } else { 0 };
    let vis = visible_params(params);
    assert(vis.len() == params.len() - skip);
    assert forall|k: int| 0 <= k < vis.len() implies #[trigger] vis[k] == params[k + skip] by {}
    assert forall|k: int| 0 <= k < vis.len() implies acceptable_param(#[trigger] vis[k]) by {
        assert(vis[k] == params[k + skip]);
    }
    let shown = Seq::new(
        (params.len() - skip) as nat,
        |k: int| params[k + skip]->ident->0@ + ": "@ + python_type_spec(params[k + skip]->ty),
    );
    assert(vis.map_values(|p: FnParam| param_stub(p)) == shown);
    if params.len() > 0 {
        assert(cx_first_spec(params) == (params[0]->ty matches TypeExpr::Reference {
            mutable: true,
            inner,
        } && last_ident_spec(*inner) == Some("ToolCx"@)));
    }
}

fn is_named(s: &String, lit: &str) -> (r: bool)
    ensures
        r == (s@ == lit@),
{
    let l = String::from_str(lit);
    *s == l
}

fn leaf_python_name(name: &String) -> (r: &'static str)
    ensures
        r@ == leaf_python(name@),
{
    if is_named(name, "String") || is_named(name, "str") {
        "str"
    } else if is_named(name, "i64") {
        "int"
    } else if is_named(name, "f64") {
        "float"
    } else if is_named(name, "bool") {
        "bool"
    } else if is_named(name, "Rows") {
        "list[dict]"
    } else if is_named(name, "Dataset") {
        "Dataset"
    } else {
        "object"
    }
}

/// The Python type of a Rust type.
pub fn python_type(ty: &TypeExpr) -> (r: String)
    ensures
        r@ == python_type_spec(*ty),
    decreases ty,
{
    match ty {
        TypeExpr::Reference { inner, .. } => python_type(inner),
        TypeExpr::Tuple(elems) => {
            let mut out = String::from_str("tuple[");
            let ghost start = out@;
            let ghost tys = python_types_spec(elems@);
            proof {
                lemma_python_types(elems@);
            }
            let mut i: usize = 0;
            while i < elems.len()
                invariant
                    i <= elems@.len(),
                    *ty is Tuple && (*ty)->0 == *elems,
                    tys == python_types_spec(elems@),
                    tys.len() == elems@.len(),
                    forall|k: int| 0 <= k < elems@.len() ==> #[trigger] tys[k] == python_type_spec(elems@[k]),
                    out@ == start + join(tys.take(i as int), ", "@),
                decreases elems@.len() - i,
            {
                if i > 0 {
                    out.append(", ");
                }
                proof {
                    assert(decreases_to!(*ty => (*ty)->0));
                    assert(decreases_to!(*elems => elems@));
                    assert(decreases_to!(elems@ => elems@[i as int]));
                }
                let p = python_type(&elems[i]);
                out.append(p.as_str());
                proof {
                    assert(tys.take(i as int).push(tys[i as int]) == tys.take(i + 1));
                    if i > 0 {
                        crate::text::lemma_join_push(tys.take(i as int), ", "@, tys[i as int]);
                    } else {
                        assert(tys.take(1) == seq![tys[0]]);
                    }
                }
                i = i + 1;
            }
            proof {
                assert(tys.take(elems@.len() as int) == tys);
            }
            out.append("]");
            out
        },
        TypeExpr::Path { last, first_arg } => match last {
            None => String::from_str("object"),
            Some(name) => {
                if is_named(name, "Vec") {
                    match first_arg {
                        Some(inner) => {
                            let mut out = String::from_str("list[");
                            let p = python_type(inner);
                            out.append(p.as_str());
                            out.append("]");
                            return out;
                        },
                        None => {},
                    }
                }
                String::from_str(leaf_python_name(name))
            },
        },
        TypeExpr::Other => String::from_str("object"),
    }
}

/// The Python return type of a tool.
pub fn python_return_type(output: &ReturnSpec) -> (r: String)
    ensures
        r@ == python_return_spec(*output),
{
    match output {
        ReturnSpec::Unit => String::from_str("None"),
        ReturnSpec::Type(ty) => {
            match ty {
                TypeExpr::Path { last: Some(name), first_arg: Some(inner) } => {
                    if is_named(name, "Result") {
                        return python_type(inner);
                    }
                },
                _ => {},
            }
            python_type(ty)
        },
    }
}

/// The identifier of a type's last path segment, looking through references.
pub fn last_ident(ty: &TypeExpr) -> (r: Option<String>)
    ensures
        match r {
            Some(s) => last_ident_spec(*ty) == Some(s@),
            None => last_ident_spec(*ty) is None,
        },
    decreases ty,
{
    match ty {
        TypeExpr::Reference { inner, .. } => last_ident(inner),
        TypeExpr::Path { last, .. } => match last {
            Some(name) => Some(name.clone()),
            None => None,
        },
        _ => None,
    }
}

/// The parameter is the host context `&mut ToolCx`.
pub fn is_cx_param(p: &FnParam) -> (r: bool)
    ensures
        r == is_cx_param_spec(*p),
{
    match p {
        FnParam::Typed { ty, .. } => match ty {
            TypeExpr::Reference { mutable, inner } => {
                if !*mutable {
                    return false;
                }
                match last_ident(inner) {
                    Some(s) => is_named(&s, "ToolCx"),
                    None => false,
                }
            },
            _ => false,
        },
        FnParam::Receiver => false,
    }
}

/// Assemble `def NAME(p1: t1, p2: t2) -> ret: ...`.
pub fn build_stub(name: &str, idents: &[String], types: &[TypeExpr], ret_py: &str) -> (r: String)
    ensures
        r@ == stub_line(name@, stub_params(idents@, types@), ret_py@),
{
    let ghost params = stub_params(idents@, types@);
    let n = if idents.len() < types.len() { idents.len() } else { types.len() };
    let mut out = String::from_str("def ");
    out.append(name);
    out.append("(");
    let ghost start = out@;
    let mut i: usize = 0;
    while i < n
        invariant
            i <= n,
            n == params.len(),
            n <= idents@.len(),
            n <= types@.len(),
            params == stub_params(idents@, types@),
            out@ == start + join(params.take(i as int), ", "@),
        decreases n - i,
    {
        if i > 0 {
            out.append(", ");
        }
        out.append(idents[i].as_str());
        out.append(": ");
        let t = python_type(&types[i]);
        out.append(t.as_str());
        proof {
            assert(params[i as int] == stub_param(idents@[i as int]@, types@[i as int]));
            assert(params.take(i as int).push(params[i as int]) == params.take(i + 1));
            if i > 0 {
                crate::text::lemma_join_push(params.take(i as int), ", "@, params[i as int]);
            } else {
                assert(params.take(1) == seq![params[0]]);
            }
        }
        i = i + 1;
    }
    proof {
        assert(params.take(n as int) == params);
    }
    out.append(") -> ");
    out.append(ret_py);
    out.append(": ...");
    out
}

/// Split a tool function's parameters into the host context and the sandbox-visible ones,
/// and generate its stub line.
pub fn plan_tool(name: &str, params: &[FnParam], output: &ReturnSpec) -> (r: Result<ToolPlan, String>)
    ensures
        plan_outcome(r, name@, params@, *output),
{
    let cx_first = params.len() > 0 && is_cx_param(&params[0]);
    let start: usize = if cx_first { 1 } else { 0 };
    let ghost vis = visible_params(params@);
    let ghost stubs = vis.map_values(|p: FnParam| param_stub(p));
    proof {
        assert(vis == params@.subrange(start as int, params@.len() as int));
    }
    let mut args: Vec<String> = Vec::new();
    let mut stub = String::from_str("def ");
    stub.append(name);
    stub.append("(");
    let ghost head = stub@;
    let mut i: usize = start;
    while i < params.len()
        invariant
            start <= i <= params@.len(),
            start == (if cx_first_spec(params@) { 1int } else { 0int }),
            vis == params@.subrange(start as int, params@.len() as int),
            vis == visible_params(params@),
            stubs == vis.map_values(|p: FnParam| param_stub(p)),
            args@.len() == i - start,
            forall|k: int| 0 <= k < i - start ==> acceptable_param(#[trigger] vis[k]),
            forall|k: int| 0 <= k < i - start ==> #[trigger] args@[k]@ == param_name(vis[k]),
            stub@ == head + join(stubs.take(i - start), ", "@),
        decreases params@.len() - i,
    {
        let ghost k = i - start;
        assert(vis[k] == params@[i as int]);
        match &params[i] {
            FnParam::Receiver => {
                proof {
                    assert(!acceptable_param(vis[k]));
                }
                return Err(String::from_str("tools cannot take `self`"));
            },
            FnParam::Typed { ident, ty } => match ident {
                None => {
                    proof {
                        assert(!acceptable_param(vis[k]));
                    }
                    return Err(String::from_str("tool parameters must be simple identifiers"));
                },
                Some(n) => {
                    if i > start {
                        stub.append(", ");
                    }
                    stub.append(n.as_str());
                    stub.append(": ");
                    let t = python_type(ty);
                    stub.append(t.as_str());
                    args.push(n.clone());
                    proof {
                        assert(stubs[k] == param_stub(vis[k]));
                        assert(stubs.take(k).push(stubs[k]) == stubs.take(k + 1));
                        if k > 0 {
                            crate::text::lemma_join_push(stubs.take(k), ", "@, stubs[k]);
                        } else {
                            assert(stubs.take(1) == seq![stubs[0]]);
                        }
                    }
                },
            },
        }
        i = i + 1;
    }
    proof {
        assert(stubs.take(vis.len() as int) == stubs);
    }
    stub.append(") -> ");
    let ret = python_return_type(output);
    stub.append(ret.as_str());
    stub.append(": ...");
    Ok(ToolPlan { cx_first, args, stub })
}

} // verus!
