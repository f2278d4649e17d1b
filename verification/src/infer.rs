//! The type-inference propagator: a single post-order pass that derives every
//! node's possible-type set from its children, validates call nodes against
//! the registry through the binder, and widens assignment targets.
//!
//! The pass is specified against a mathematical model: `mtypes` gives the set
//! a node derives from its children, `final_types` adds the widening an
//! enclosing assignment performs on its target, and `node_diag` gives the
//! diagnostic a node raises. All three read only the tree's shape (the node
//! kinds), never the mutable type sets, so the assignment of types is a
//! function of the shape alone.

use vstd::prelude::*;

use crate::ast::{
    child_list, clone_types, contains_name, lemma_union_names_contains, shape_of, tree_wf,
    type_names, union_names, union_types, BinaryOperator, Function, Method, Node, NodeData, Tree,
    Type,
};
use crate::binder::{bind, bind_check, KeywordEntry};
use crate::diag::{DiagKind, Diagnostic};
use crate::registry::{func_lookup, method_lookup, Registry};
use vstd::string::StringExecFns;

verus! {

/// The child indexes of an argument-list node; empty for any other kind.
pub open spec fn arg_children(d: Seq<NodeData>, a: int) -> Seq<usize> {
    if 0 <= a < d.len() {
        match d[a] {
            NodeData::ArgumentList(c) => c@,
            _ => Seq::empty(),
        }
    } else {
        Seq::empty()
    }
}

pub open spec fn is_kw_node(d: Seq<NodeData>, c: int) -> bool {
    0 <= c < d.len() && match d[c] {
        NodeData::KeywordArgument(_, _) => true,
        _ => false,
    }
}

/// The positional arguments of an argument list: its children that are not
/// keyword arguments, in order.
pub open spec fn pos_children(d: Seq<NodeData>, cs: Seq<usize>) -> Seq<usize>
    decreases cs.len(),
{
    if cs.len() == 0 {
        Seq::empty()
    } else {
        let rest = pos_children(d, cs.drop_last());
        if !is_kw_node(d, cs.last() as int) {
            rest.push(cs.last())
        } else {
            rest
        }
    }
}

/// The keyword arguments of an argument list, in order.
pub open spec fn kw_children(d: Seq<NodeData>, cs: Seq<usize>) -> Seq<usize>
    decreases cs.len(),
{
    if cs.len() == 0 {
        Seq::empty()
    } else {
        let rest = kw_children(d, cs.drop_last());
        if is_kw_node(d, cs.last() as int) {
            rest.push(cs.last())
        } else {
            rest
        }
    }
}

pub open spec fn kw_name_of(d: Seq<NodeData>, c: int) -> Seq<char> {
    if 0 <= c < d.len() {
        match d[c] {
            NodeData::KeywordArgument(n, _) => n@,
            _ => Seq::empty(),
        }
    } else {
        Seq::empty()
    }
}

pub open spec fn kw_names_of(d: Seq<NodeData>, cs: Seq<usize>) -> Seq<Seq<char>> {
    cs.map_values(|c: usize| kw_name_of(d, c as int))
}

pub open spec fn is_comparison(op: BinaryOperator) -> bool {
    op == BinaryOperator::EqualTo || op == BinaryOperator::NotEqualTo || op
        == BinaryOperator::LessThan || op == BinaryOperator::LessEqual || op
        == BinaryOperator::GreaterThan || op == BinaryOperator::GreaterEqual
}

/// Whether a side of a binary expression may hold type `n`: an empty
/// (unknown) set is tolerated so that one failure does not cascade.
pub open spec fn side_has(s: Seq<Seq<char>>, n: Seq<char>) -> bool {
    s.len() == 0 || s.contains(n)
}

/// The per-operator rule table: comparisons yield boolean whatever their
/// operands; conjunctions demand boolean sides; arithmetic demands numeric
/// sides and yields numeric, except that `+` also concatenates strings. An
/// empty result means no rule matched.
pub open spec fn binop_names(op: BinaryOperator, l: Seq<Seq<char>>, r: Seq<Seq<char>>) -> Seq<
    Seq<char>,
> {
    if is_comparison(op) {
        seq!["bool"@]
    } else if op == BinaryOperator::And || op == BinaryOperator::Or {
        if side_has(l, "bool"@) && side_has(r, "bool"@) {
            seq!["bool"@]
        } else {
            Seq::empty()
        }
    } else {
        let int_ok = side_has(l, "int"@) && side_has(r, "int"@);
        let str_ok = op == BinaryOperator::Add && side_has(l, "str"@) && side_has(r, "str"@);
        if int_ok && str_ok {
            seq!["int"@, "str"@]
        } else if int_ok {
            seq!["int"@]
        } else if str_ok {
            seq!["str"@]
        } else {
            Seq::empty()
        }
    }
}

/// The first receiver type, in the order the receiver's type set is stored,
/// that has a method of the given name.
pub open spec fn first_method(ms: Seq<Method>, recv: Seq<Seq<char>>, name: Seq<char>) -> Option<
    Method,
>
    decreases recv.len(),
{
    if recv.len() == 0 {
        Option::None
    } else if method_lookup(ms, recv[0], name) is Some {
        method_lookup(ms, recv[0], name)
    } else {
        first_method(ms, recv.drop_first(), name)
    }
}

/// Call resolution: a method on the receiver's possible types first, else a
/// global function of that name.
pub open spec fn resolve_call(reg: Registry, recv: Seq<Seq<char>>, name: Seq<char>) -> Option<
    Function,
> {
    match first_method(reg.methods@, recv, name) {
        Option::Some(m) => Option::Some(m.function),
        Option::None => func_lookup(reg.functions@, name),
    }
}

/// The types a node derives from its children, by kind: literals are fixed
/// singletons, a keyword argument passes its value through, binary
/// expressions follow the operator rule table, a conditional unions its
/// branches, and a call that binds takes the signature's return types.
pub open spec fn mtypes(d: Seq<NodeData>, reg: Registry, i: int) -> Seq<Seq<char>>
    decreases i, 3int, 0int,
{
    if !(0 <= i < d.len()) {
        Seq::empty()
    } else {
        match d[i] {
            NodeData::BooleanLiteral(_) => seq!["bool"@],
            NodeData::StringLiteral(_) => seq!["str"@],
            NodeData::NumberLiteral(_) => seq!["int"@],
            NodeData::ArrayLiteral(_) => seq!["array"@],
            NodeData::DictionaryLiteral(_) => seq!["dict"@],
            NodeData::Identifier(_) => Seq::empty(),
            NodeData::ArgumentList(_) => Seq::empty(),
            NodeData::BuildDefinition(_) => Seq::empty(),
            NodeData::BreakNode => Seq::empty(),
            NodeData::ContinueNode => Seq::empty(),
            NodeData::AssignmentStatement(_, _, _) => Seq::empty(),
            NodeData::KeywordArgument(_, v) => if (v as int) < i {
                mtypes(d, reg, v as int)
            } else {
                Seq::empty()
            },
            NodeData::BinaryExpression(l, op, r) => if (l as int) < i && (r as int) < i {
                binop_names(op, mtypes(d, reg, l as int), mtypes(d, reg, r as int))
            } else {
                Seq::empty()
            },
            NodeData::ConditionalExpression(_, t, e) => mlist(d, reg, t@ + e@, i),
            NodeData::FunctionCall(name, a) => if (a as int) < i {
                call_types(d, reg, func_lookup(reg.functions@, name@), a as int)
            } else {
                Seq::empty()
            },
            NodeData::MethodCall(recv, name, a) => if (recv as int) < i && (a as int) < i {
                call_types(d, reg, resolve_call(reg, mtypes(d, reg, recv as int), name@), a as int)
            } else {
                Seq::empty()
            },
        }
    }
}

/// The deduplicating union of the types of the listed nodes, left to right.
pub open spec fn mlist(d: Seq<NodeData>, reg: Registry, idxs: Seq<usize>, bound: int) -> Seq<
    Seq<char>,
>
    decreases bound, 1int, idxs.len(),
{
    if idxs.len() == 0 {
        Seq::empty()
    } else {
        union_names(
            mlist(d, reg, idxs.drop_last(), bound),
            if (idxs.last() as int) < bound {
                mtypes(d, reg, idxs.last() as int)
            } else {
                Seq::empty()
            },
        )
    }
}

/// The per-node type sets of the listed nodes, in order.
pub open spec fn tlist(d: Seq<NodeData>, reg: Registry, idxs: Seq<usize>, bound: int) -> Seq<
    Seq<Seq<char>>,
>
    decreases bound, 1int, idxs.len(),
{
    if idxs.len() == 0 {
        Seq::empty()
    } else {
        tlist(d, reg, idxs.drop_last(), bound).push(
            if (idxs.last() as int) < bound {
                mtypes(d, reg, idxs.last() as int)
            } else {
                Seq::empty()
            },
        )
    }
}

/// What a resolved call contributes to its node: the signature's return
/// types when the arguments bind, nothing when they do not or when nothing
/// resolved.
pub open spec fn call_types(d: Seq<NodeData>, reg: Registry, fo: Option<Function>, a: int) -> Seq<
    Seq<char>,
>
    decreases a, 2int, 0int,
{
    match fo {
        Option::None => Seq::empty(),
        Option::Some(f) => {
            let cs = arg_children(d, a);
            if bind_check(
                f,
                tlist(d, reg, pos_children(d, cs), a),
                kw_names_of(d, kw_children(d, cs)),
                tlist(d, reg, kw_children(d, cs), a),
            ) is None {
                type_names(f.return_types@)
            } else {
                Seq::empty()
            }
        },
    }
}

/// The diagnostic a resolved call raises: `UnknownCallable` when nothing
/// resolved, else whatever the binder reports.
pub open spec fn call_diag(d: Seq<NodeData>, reg: Registry, fo: Option<Function>, a: int) -> Option<
    DiagKind,
>
    decreases a, 2int, 1int,
{
    match fo {
        Option::None => Option::Some(DiagKind::UnknownCallable),
        Option::Some(f) => {
            let cs = arg_children(d, a);
            bind_check(
                f,
                tlist(d, reg, pos_children(d, cs), a),
                kw_names_of(d, kw_children(d, cs)),
                tlist(d, reg, kw_children(d, cs), a),
            )
        },
    }
}

/// The diagnostic a node raises, if any: operator failures on binary
/// expressions, resolution and binding failures on calls.
pub open spec fn node_diag(d: Seq<NodeData>, reg: Registry, i: int) -> Option<DiagKind>
    decreases i, 4int, 0int,
{
    if !(0 <= i < d.len()) {
        Option::None
    } else {
        match d[i] {
            NodeData::BinaryExpression(l, op, r) => if (l as int) < i && (r as int) < i {
                if binop_names(op, mtypes(d, reg, l as int), mtypes(d, reg, r as int)).len()
                    == 0 {
                    Option::Some(DiagKind::OperatorTypeMismatch)
                } else {
                    Option::None
                }
            } else {
                Option::None
            },
            NodeData::FunctionCall(name, a) => if (a as int) < i {
                call_diag(d, reg, func_lookup(reg.functions@, name@), a as int)
            } else {
                Option::None
            },
            NodeData::MethodCall(recv, name, a) => if (recv as int) < i && (a as int) < i {
                call_diag(d, reg, resolve_call(reg, mtypes(d, reg, recv as int), name@), a as int)
            } else {
                Option::None
            },
            _ => Option::None,
        }
    }
}

/// Whether node `p` is an assignment whose target is node `i`.
pub open spec fn is_assign_of(d: Seq<NodeData>, p: int, i: int) -> bool {
    0 <= p < d.len() && match d[p] {
        NodeData::AssignmentStatement(l, _, _) => l as int == i,
        _ => false,
    }
}

pub open spec fn assign_rhs(d: Seq<NodeData>, p: int) -> int {
    if 0 <= p < d.len() {
        match d[p] {
            NodeData::AssignmentStatement(_, _, r) => r as int,
            _ => 0,
        }
    } else {
        0
    }
}

pub open spec fn assigned_by(d: Seq<NodeData>, i: int) -> bool {
    exists|p: int| is_assign_of(d, p, i)
}

/// The types a node holds once the pass is done: what it derives itself,
/// widened by the right-hand side if an assignment targets it. Widening only
/// ever adds types, never removes any.
pub open spec fn final_types(d: Seq<NodeData>, reg: Registry, i: int) -> Seq<Seq<char>> {
    if assigned_by(d, i) {
        let p = choose|p: int| is_assign_of(d, p, i);
        union_names(mtypes(d, reg, i), mtypes(d, reg, assign_rhs(d, p)))
    } else {
        mtypes(d, reg, i)
    }
}

/// The diagnostics of the first `n` nodes, in node (post-)order.
pub open spec fn diags_model(nodes0: Seq<Node>, reg: Registry, n: int) -> Seq<Diagnostic>
    decreases n,
{
    if n <= 0 {
        Seq::empty()
    } else {
        diags_model(nodes0, reg, n - 1) + match node_diag(shape_of(nodes0), reg, n - 1) {
            Option::Some(k) => seq![
                Diagnostic { location: nodes0[n - 1].location, kind: k },
            ],
            Option::None => Seq::empty(),
        }
    }
}

/// Under well-formedness an assignment's target records the assignment as
/// its parent, so at most one assignment targets any node.
pub proof fn lemma_assign_parent(nodes: Seq<Node>, p: int, i: int)
    requires
        tree_wf(nodes),
        is_assign_of(shape_of(nodes), p, i),
    ensures
        0 <= i < p,
        nodes[i].parent == Option::Some((p as usize)),
{
    assert(shape_of(nodes)[p] == nodes[p].data);
    assert(child_list(nodes[p].data)[0] as int == i);
}

/// The inferred assignment of types depends on the tree's shape alone: two
/// trees of one shape are assigned identical type sets everywhere. Together
/// with `infer_types`' contract, which pins every node's set to
/// `final_types` of the shape and leaves the shape unchanged, re-running the
/// pass on an already-typed tree reproduces the very same assignment.
pub proof fn lemma_inference_idempotent(a: Seq<Node>, b: Seq<Node>, reg: Registry)
    requires
        shape_of(a) == shape_of(b),
    ensures
        forall|i: int| final_types(shape_of(a), reg, i) == final_types(shape_of(b), reg, i),
{
}

/// What a node list's union holds: exactly the types some listed node holds.
pub proof fn lemma_mlist_contains(d: Seq<NodeData>, reg: Registry, idxs: Seq<usize>, bound: int)
    ensures
        forall|n: Seq<char>|
            #![trigger mlist(d, reg, idxs, bound).contains(n)]
            mlist(d, reg, idxs, bound).contains(n) <==> exists|x: int|
                0 <= x < idxs.len() && (idxs[x] as int) < bound && mtypes(
                    d,
                    reg,
                    idxs[x] as int,
                ).contains(n),
    decreases idxs.len(),
{
    if idxs.len() == 0 {
        assert(forall|n: Seq<char>| !mlist(d, reg, idxs, bound).contains(n));
    } else {
        let rest = idxs.drop_last();
        lemma_mlist_contains(d, reg, rest, bound);
        let lastv = if (idxs.last() as int) < bound {
            mtypes(d, reg, idxs.last() as int)
        } else {
            Seq::empty()
        };
        lemma_union_names_contains(mlist(d, reg, rest, bound), lastv);
        assert forall|n: Seq<char>|
            mlist(d, reg, idxs, bound).contains(n) <==> exists|x: int|
                0 <= x < idxs.len() && (idxs[x] as int) < bound && mtypes(
                    d,
                    reg,
                    idxs[x] as int,
                ).contains(n) by {
            if mlist(d, reg, idxs, bound).contains(n) {
                if mlist(d, reg, rest, bound).contains(n) {
                    let x = choose|x: int|
                        0 <= x < rest.len() && (rest[x] as int) < bound && mtypes(
                            d,
                            reg,
                            rest[x] as int,
                        ).contains(n);
                    assert(idxs[x] == rest[x]);
                } else {
                    assert(lastv.contains(n));
                    assert((idxs.last() as int) < bound);
                    assert(idxs[idxs.len() - 1] == idxs.last());
                }
            }
            if exists|x: int|
                0 <= x < idxs.len() && (idxs[x] as int) < bound && mtypes(
                    d,
                    reg,
                    idxs[x] as int,
                ).contains(n) {
                let x = choose|x: int|
                    0 <= x < idxs.len() && (idxs[x] as int) < bound && mtypes(
                        d,
                        reg,
                        idxs[x] as int,
                    ).contains(n);
                if x < idxs.len() - 1 {
                    assert(rest[x] == idxs[x]);
                    assert(mlist(d, reg, rest, bound).contains(n));
                } else {
                    assert(lastv.contains(n));
                }
            }
        }
    }
}

/// Union propagation: a conditional expression's type set holds exactly the
/// types that some node of its true branch or of its false branch may hold —
/// branches taken under different runtime conditions contribute their whole
/// union.
pub proof fn lemma_conditional_union(
    d: Seq<NodeData>,
    reg: Registry,
    i: int,
    c: Vec<usize>,
    t: Vec<usize>,
    e: Vec<usize>,
)
    requires
        0 <= i < d.len(),
        d[i] == NodeData::ConditionalExpression(c, t, e),
    ensures
        forall|n: Seq<char>|
            #![trigger mtypes(d, reg, i).contains(n)]
            mtypes(d, reg, i).contains(n) <==> ((exists|x: int|
                0 <= x < t@.len() && (t@[x] as int) < i && mtypes(d, reg, t@[x] as int).contains(
                    n,
                )) || (exists|y: int|
                0 <= y < e@.len() && (e@[y] as int) < i && mtypes(d, reg, e@[y] as int).contains(
                    n,
                ))),
{
    lemma_mlist_contains(d, reg, t@ + e@, i);
    assert forall|n: Seq<char>|
        mtypes(d, reg, i).contains(n) <==> ((exists|x: int|
            0 <= x < t@.len() && (t@[x] as int) < i && mtypes(d, reg, t@[x] as int).contains(n))
            || (exists|y: int|
            0 <= y < e@.len() && (e@[y] as int) < i && mtypes(d, reg, e@[y] as int).contains(
                n,
            ))) by {
        assert(mtypes(d, reg, i) == mlist(d, reg, t@ + e@, i));
        let all = t@ + e@;
        if mlist(d, reg, all, i).contains(n) {
            let x = choose|x: int|
                0 <= x < all.len() && (all[x] as int) < i && mtypes(d, reg, all[x] as int).contains(
                    n,
                );
            if x < t@.len() {
                assert(all[x] == t@[x]);
            } else {
                assert(all[x] == e@[x - t@.len()]);
            }
        }
        if exists|x: int|
            0 <= x < t@.len() && (t@[x] as int) < i && mtypes(d, reg, t@[x] as int).contains(n) {
            let x = choose|x: int|
                0 <= x < t@.len() && (t@[x] as int) < i && mtypes(d, reg, t@[x] as int).contains(
                    n,
                );
            assert(all[x] == t@[x]);
            assert(mlist(d, reg, all, i).contains(n));
        }
        if exists|y: int|
            0 <= y < e@.len() && (e@[y] as int) < i && mtypes(d, reg, e@[y] as int).contains(n) {
            let y = choose|y: int|
                0 <= y < e@.len() && (e@[y] as int) < i && mtypes(d, reg, e@[y] as int).contains(
                    n,
                );
            assert(all[t@.len() + y] == e@[y]);
            assert(mlist(d, reg, all, i).contains(n));
        }
    }
}

fn type_of_name(s: &str) -> (t: Type)
    ensures
        t@ == s@,
{
    Type::new(String::from_str(s))
}

fn singleton_type(s: &str) -> (v: Vec<Type>)
    ensures
        type_names(v@) == seq![s@],
{
    let mut v: Vec<Type> = Vec::new();
    v.push(type_of_name(s));
    proof {
        assert(type_names(v@) =~= seq![s@]);
    }
    v
}

fn side_has_exec(v: &Vec<Type>, name: &str) -> (r: bool)
    ensures
        r == side_has(type_names(v@), name@),
{
    if v.len() == 0 {
        return true;
    }
    let n = String::from_str(name);
    contains_name(v, &n)
}

/// The executable operator rule table; see `binop_names`.
fn binop_types_exec(op: BinaryOperator, l: &Vec<Type>, r: &Vec<Type>) -> (v: Vec<Type>)
    ensures
        type_names(v@) == binop_names(op, type_names(l@), type_names(r@)),
{
    match op {
        BinaryOperator::EqualTo
        | BinaryOperator::NotEqualTo
        | BinaryOperator::LessThan
        | BinaryOperator::LessEqual
        | BinaryOperator::GreaterThan
        | BinaryOperator::GreaterEqual => singleton_type("bool"),
        BinaryOperator::And | BinaryOperator::Or => {
            if side_has_exec(l, "bool") && side_has_exec(r, "bool") {
                singleton_type("bool")
            } else {
                let v: Vec<Type> = Vec::new();
                proof {
                    assert(type_names(v@) =~= Seq::<Seq<char>>::empty());
                }
                v
            }
        },
        _ => {
            let int_ok = side_has_exec(l, "int") && side_has_exec(r, "int");
            let str_ok = match op {
                BinaryOperator::Add => side_has_exec(l, "str") && side_has_exec(r, "str"),
                _ => false,
            };
            let mut v: Vec<Type> = Vec::new();
            if int_ok {
                v.push(type_of_name("int"));
            }
            if str_ok {
                v.push(type_of_name("str"));
            }
            proof {
                if int_ok && str_ok {
                    assert(type_names(v@) =~= seq!["int"@, "str"@]);
                } else if int_ok {
                    assert(type_names(v@) =~= seq!["int"@]);
                } else if str_ok {
                    assert(type_names(v@) =~= seq!["str"@]);
                } else {
                    assert(type_names(v@) =~= Seq::<Seq<char>>::empty());
                }
            }
            v
        },
    }
}

/// The deduplicating union of two type vectors, as a new vector.
fn union_of(a: &Vec<Type>, b: &Vec<Type>) -> (r: Vec<Type>)
    ensures
        type_names(r@) == union_names(type_names(a@), type_names(b@)),
{
    let mut r = clone_types(a);
    union_types(&mut r, b);
    r
}

proof fn lemma_first_method_found(ms: Seq<Method>, recv: Seq<Seq<char>>, name: Seq<char>, i: int)
    requires
        0 <= i < recv.len(),
        forall|x: int| 0 <= x < i ==> method_lookup(ms, #[trigger] recv[x], name) is None,
        method_lookup(ms, recv[i], name) is Some,
    ensures
        first_method(ms, recv, name) == method_lookup(ms, recv[i], name),
    decreases i,
{
    if i > 0 {
        assert(recv.drop_first()[i - 1] == recv[i]);
        assert(forall|x: int|
            0 <= x < i - 1 ==> method_lookup(ms, #[trigger] recv.drop_first()[x], name) is None);
        lemma_first_method_found(ms, recv.drop_first(), name, i - 1);
    }
}

proof fn lemma_first_method_absent(ms: Seq<Method>, recv: Seq<Seq<char>>, name: Seq<char>)
    requires
        forall|x: int| 0 <= x < recv.len() ==> method_lookup(ms, #[trigger] recv[x], name) is None,
    ensures
        first_method(ms, recv, name) is None,
    decreases recv.len(),
{
    if recv.len() > 0 {
        assert(forall|x: int|
            0 <= x < recv.drop_first().len() ==> method_lookup(
                ms,
                #[trigger] recv.drop_first()[x],
                name,
            ) is None);
        lemma_first_method_absent(ms, recv.drop_first(), name);
    }
}

/// Finds the method the receiver's possible types resolve to: the first
/// stored receiver type that has a method of this name wins.
fn resolve_method_first<'a>(reg: &'a Registry, rtypes: &Vec<Type>, name: &String) -> (r: Option<
    &'a Method,
>)
    ensures
        match r {
            Option::Some(m) => first_method(reg.methods@, type_names(rtypes@), name@)
                == Option::Some(*m),
            Option::None => first_method(reg.methods@, type_names(rtypes@), name@) is None,
        },
{
    let ghost recv = type_names(rtypes@);
    let mut i: usize = 0;
    while i < rtypes.len()
        invariant
            recv == type_names(rtypes@),
            i <= rtypes@.len(),
            forall|x: int| 0 <= x < i ==> method_lookup(reg.methods@, #[trigger] recv[x], name@) is None,
        decreases rtypes@.len() - i,
    {
        match reg.lookup_method(&rtypes[i], name) {
            Option::Some(m) => {
                proof {
                    assert(recv[i as int] == rtypes@[i as int]@);
                    lemma_first_method_found(reg.methods@, recv, name@, i as int);
                }
                return Option::Some(m);
            },
            Option::None => {
                proof {
                    assert(recv[i as int] == rtypes@[i as int]@);
                }
            },
        }
        i = i + 1;
    }
    proof {
        lemma_first_method_absent(reg.methods@, recv, name@);
    }
    Option::None
}

/// The type set a node shows mid-pass: its own derived set, widened already
/// when the assignment that targets it has been processed.
spec fn cur_types(d: Seq<NodeData>, reg: Registry, i: int, step: int) -> Seq<Seq<char>> {
    if exists|p: int| #[trigger] is_assign_of(d, p, i) && p < step {
        final_types(d, reg, i)
    } else {
        mtypes(d, reg, i)
    }
}

/// A child of node `s` stands before `s`, records `s` as its parent, and can
/// only be an assignment target of `s` itself.
proof fn lemma_child_base(nodes: Seq<Node>, s: int, c: int)
    requires
        tree_wf(nodes),
        nodes.len() <= usize::MAX as int,
        0 <= s < nodes.len(),
        exists|k: int|
            0 <= k < child_list(nodes[s].data).len() && (#[trigger] child_list(nodes[s].data)[k])
                as int == c,
    ensures
        0 <= c < s,
        nodes[c].parent == Option::Some((s as usize)),
        forall|p: int| is_assign_of(shape_of(nodes), p, c) ==> p == s,
{
    let k = choose|k: int|
        0 <= k < child_list(nodes[s].data).len() && (#[trigger] child_list(nodes[s].data)[k]) as int
            == c;
    assert(child_list(nodes[s].data)[k] as int == c);
    assert(nodes[c].parent == Option::Some((s as usize)));
    assert forall|p: int| is_assign_of(shape_of(nodes), p, c) implies p == s by {
        lemma_assign_parent(nodes, p, c);
        assert(nodes[c].parent == Option::Some((p as usize)));
        assert((p as usize) == (s as usize));
    }
}

/// Gathers the positional and keyword arguments below argument-list node `a`,
/// whose children are already typed according to the model.
fn collect_args(nodes: &Vec<Node>, a: usize, Ghost(reg): Ghost<Registry>) -> (out: (
    Vec<Vec<Type>>,
    Vec<KeywordEntry>,
))
    requires
        a < nodes@.len(),
        forall|x: int|
            0 <= x < arg_children(shape_of(nodes@), a as int).len() ==> ((
            #[trigger] arg_children(shape_of(nodes@), a as int)[x]) as int) < a as int
                && type_names(
                nodes@[arg_children(shape_of(nodes@), a as int)[x] as int].types@,
            ) == mtypes(
                shape_of(nodes@),
                reg,
                arg_children(shape_of(nodes@), a as int)[x] as int,
            ),
    ensures
        ({
            let d = shape_of(nodes@);
            let cs = arg_children(d, a as int);
            &&& crate::binder::pos_names(out.0@) == tlist(d, reg, pos_children(d, cs), a as int)
            &&& crate::binder::entry_names(out.1@) == kw_names_of(d, kw_children(d, cs))
            &&& crate::binder::entry_types(out.1@) == tlist(d, reg, kw_children(d, cs), a as int)
        }),
{
    let ghost d = shape_of(nodes@);
    let ghost cs_spec = arg_children(d, a as int);
    let mut posv: Vec<Vec<Type>> = Vec::new();
    let mut kwsv: Vec<KeywordEntry> = Vec::new();
    match &nodes[a].data {
        NodeData::ArgumentList(cs) => {
            proof {
                assert(d[a as int] == nodes@[a as int].data);
                assert(cs_spec == cs@);
            }
            let mut x: usize = 0;
            while x < cs.len()
                invariant
                    d == shape_of(nodes@),
                    cs_spec == cs@,
                    cs_spec == arg_children(d, a as int),
                    x <= cs@.len(),
                    forall|y: int|
                        0 <= y < cs_spec.len() ==> ((#[trigger] cs_spec[y]) as int) < a as int
                            && type_names(nodes@[cs_spec[y] as int].types@) == mtypes(
                            d,
                            reg,
                            cs_spec[y] as int,
                        ),
                    a < nodes@.len(),
                    crate::binder::pos_names(posv@) == tlist(
                        d,
                        reg,
                        pos_children(d, cs@.take(x as int)),
                        a as int,
                    ),
                    crate::binder::entry_names(kwsv@) == kw_names_of(
                        d,
                        kw_children(d, cs@.take(x as int)),
                    ),
                    crate::binder::entry_types(kwsv@) == tlist(
                        d,
                        reg,
                        kw_children(d, cs@.take(x as int)),
                        a as int,
                    ),
                decreases cs@.len() - x,
            {
                let c = cs[x];
                proof {
                    assert(cs_spec[x as int] == c);
                    assert((c as int) < a as int);
                    assert(cs@.take(x + 1).drop_last() =~= cs@.take(x as int));
                    assert(cs@.take(x + 1).last() == c);
                    assert(d[c as int] == nodes@[c as int].data);
                }
                let ghost p0 = pos_children(d, cs@.take(x as int));
                let ghost k0 = kw_children(d, cs@.take(x as int));
                match &nodes[c as usize].data {
                    NodeData::KeywordArgument(kn, _) => {
                        proof {
                            assert(is_kw_node(d, c as int));
                            assert(pos_children(d, cs@.take(x + 1)) == p0);
                            assert(kw_children(d, cs@.take(x + 1)) == k0.push(c));
                            assert(k0.push(c).drop_last() =~= k0);
                        }
                        let entry = KeywordEntry {
                            name: kn.clone(),
                            types: clone_types(&nodes[c].types),
                        };
                        proof {
                            assert(entry.name@ == kw_name_of(d, c as int));
                            assert(type_names(entry.types@) == mtypes(d, reg, c as int));
                        }
                        kwsv.push(entry);
                        proof {
                            assert(crate::binder::entry_names(kwsv@) =~= kw_names_of(d, k0).push(
                                kw_name_of(d, c as int),
                            ));
                            assert(kw_names_of(d, k0.push(c)) =~= kw_names_of(d, k0).push(
                                kw_name_of(d, c as int),
                            ));
                            assert(crate::binder::entry_types(kwsv@) =~= tlist(d, reg, k0, a as int).push(
                                mtypes(d, reg, c as int),
                            ));
                        }
                    },
                    _ => {
                        proof {
                            assert(!is_kw_node(d, c as int));
                            assert(kw_children(d, cs@.take(x + 1)) == k0);
                            assert(pos_children(d, cs@.take(x + 1)) == p0.push(c));
                            assert(p0.push(c).drop_last() =~= p0);
                        }
                        let v = clone_types(&nodes[c].types);
                        posv.push(v);
                        proof {
                            assert(crate::binder::pos_names(posv@) =~= tlist(d, reg, p0, a as int).push(
                                mtypes(d, reg, c as int),
                            ));
                        }
                    },
                }
                x = x + 1;
            }
            proof {
                assert(cs@.take(cs@.len() as int) =~= cs@);
            }
        },
        _ => {
            proof {
                assert(d[a as int] == nodes@[a as int].data);
                assert(cs_spec =~= Seq::<usize>::empty());
                assert(pos_children(d, cs_spec) =~= Seq::<usize>::empty());
                assert(kw_children(d, cs_spec) =~= Seq::<usize>::empty());
                assert(crate::binder::pos_names(posv@) =~= Seq::<Seq<Seq<char>>>::empty());
                assert(crate::binder::entry_names(kwsv@) =~= Seq::<Seq<char>>::empty());
                assert(crate::binder::entry_types(kwsv@) =~= Seq::<Seq<Seq<char>>>::empty());
            }
        },
    }
    (posv, kwsv)
}

/// A child `c` of node `s` is still at its derived types at step `step`: the
/// only assignment that could have widened it is `s` itself, which either has
/// not run yet or is no assignment at all.
proof fn lemma_child_cur(nodes: Seq<Node>, d: Seq<NodeData>, reg: Registry, s: int, c: int, step: int)
    requires
        tree_wf(nodes),
        nodes.len() <= usize::MAX as int,
        d == shape_of(nodes),
        0 <= s < nodes.len(),
        exists|k: int|
            0 <= k < child_list(nodes[s].data).len() && (#[trigger] child_list(nodes[s].data)[k])
                as int == c,
        step <= s || match d[s] {
            NodeData::AssignmentStatement(_, _, _) => false,
            _ => true,
        },
    ensures
        0 <= c < s,
        nodes[c].parent == Option::Some((s as usize)),
        cur_types(d, reg, c, step) == mtypes(d, reg, c),
{
    lemma_child_base(nodes, s, c);
    if exists|p: int| #[trigger] is_assign_of(d, p, c) && p < step {
        let p = choose|p: int| #[trigger] is_assign_of(d, p, c) && p < step;
        assert(is_assign_of(shape_of(nodes), p, c));
        assert(p == s);
        assert(is_assign_of(d, s, c));
        assert(false);
    }
}

/// The method the resolution picks on a well-formed registry carries a
/// well-formed function.
proof fn lemma_first_method_wf(ms: Seq<Method>, recv: Seq<Seq<char>>, name: Seq<char>)
    requires
        forall|i: int| 0 <= i < ms.len() ==> (#[trigger] ms[i]).function.wf(),
        first_method(ms, recv, name) is Some,
    ensures
        first_method(ms, recv, name).unwrap().function.wf(),
    decreases recv.len(),
{
    if recv.len() > 0 {
        if method_lookup(ms, recv[0], name) is Some {
            crate::registry::lemma_method_lookup_wf(ms, recv[0], name);
        } else {
            lemma_first_method_wf(ms, recv.drop_first(), name);
        }
    }
}

fn concat_indexes(a: &Vec<usize>, b: &Vec<usize>) -> (r: Vec<usize>)
    ensures
        r@ == a@ + b@,
{
    let mut r: Vec<usize> = Vec::new();
    let mut i: usize = 0;
    while i < a.len()
        invariant
            i <= a@.len(),
            r@ == a@.take(i as int),
        decreases a@.len() - i,
    {
        r.push(a[i]);
        proof {
            assert(a@.take(i + 1) =~= a@.take(i as int).push(a@[i as int]));
        }
        i = i + 1;
    }
    proof {
        assert(a@.take(a@.len() as int) =~= a@);
    }
    let mut j: usize = 0;
    while j < b.len()
        invariant
            j <= b@.len(),
            r@ == a@ + b@.take(j as int),
        decreases b@.len() - j,
    {
        r.push(b[j]);
        proof {
            assert(b@.take(j + 1) =~= b@.take(j as int).push(b@[j as int]));
            assert(a@ + b@.take(j + 1) =~= (a@ + b@.take(j as int)).push(b@[j as int]));
        }
        j = j + 1;
    }
    proof {
        assert(b@.take(b@.len() as int) =~= b@);
    }
    r
}

/// Unions the already-derived type sets of the listed nodes, left to right.
fn union_children(
    nodes: &Vec<Node>,
    idxs: &Vec<usize>,
    Ghost(reg): Ghost<Registry>,
    Ghost(bound): Ghost<int>,
) -> (v: Vec<Type>)
    requires
        forall|x: int|
            0 <= x < idxs@.len() ==> ((#[trigger] idxs@[x]) as int) < bound && (idxs@[x] as int)
                < nodes@.len() && type_names(nodes@[idxs@[x] as int].types@) == mtypes(
                shape_of(nodes@),
                reg,
                idxs@[x] as int,
            ),
    ensures
        type_names(v@) == mlist(shape_of(nodes@), reg, idxs@, bound),
{
    let ghost d = shape_of(nodes@);
    let mut acc: Vec<Type> = Vec::new();
    proof {
        assert(type_names(acc@) =~= Seq::<Seq<char>>::empty());
        assert(idxs@.take(0) =~= Seq::<usize>::empty());
    }
    let mut x: usize = 0;
    while x < idxs.len()
        invariant
            d == shape_of(nodes@),
            x <= idxs@.len(),
            forall|y: int|
                0 <= y < idxs@.len() ==> ((#[trigger] idxs@[y]) as int) < bound && (idxs@[y] as int)
                    < nodes@.len() && type_names(nodes@[idxs@[y] as int].types@) == mtypes(
                    d,
                    reg,
                    idxs@[y] as int,
                ),
            type_names(acc@) == mlist(d, reg, idxs@.take(x as int), bound),
        decreases idxs@.len() - x,
    {
        let c = idxs[x];
        proof {
            assert(idxs@.take(x + 1).drop_last() =~= idxs@.take(x as int));
            assert(idxs@.take(x + 1).last() == c);
        }
        let ghost pre = type_names(acc@);
        union_types(&mut acc, &nodes[c].types);
        proof {
            assert(type_names(acc@) == union_names(pre, mtypes(d, reg, c as int)));
            assert(mlist(d, reg, idxs@.take(x + 1), bound) == union_names(
                mlist(d, reg, idxs@.take(x as int), bound),
                mtypes(d, reg, c as int),
            ));
        }
        x = x + 1;
    }
    proof {
        assert(idxs@.take(idxs@.len() as int) =~= idxs@);
    }
    acc
}

/// Runs inference over the whole tree: children before parents, so one pass
/// in index order types every node, validates every call against the
/// registry, widens every assignment target, and collects every diagnostic
/// in node order. The resulting type sets and diagnostics are exactly the
/// model's (`final_types`, `diags_model`) of the tree's shape, and the shape
/// itself — kinds, parents, locations — is left untouched.
#[verifier::rlimit(100)]
pub fn infer_types(tree: &mut Tree, reg: &Registry) -> (diags: Vec<Diagnostic>)
    requires
        old(tree).wf(),
        reg.wf(),
    ensures
        final (tree).nodes@.len() == old(tree).nodes@.len(),
        forall|i: int|
            0 <= i < old(tree).nodes@.len() ==> (#[trigger] final (tree).nodes@[i]).data == old(
                tree,
            ).nodes@[i].data && final (tree).nodes@[i].parent == old(tree).nodes@[i].parent
                && final (tree).nodes@[i].location == old(tree).nodes@[i].location,
        final (tree).wf(),
        forall|i: int|
            0 <= i < old(tree).nodes@.len() ==> type_names(
                (#[trigger] final (tree).nodes@[i]).types@,
            ) == final_types(shape_of(old(tree).nodes@), *reg, i),
        diags@ == diags_model(old(tree).nodes@, *reg, old(tree).nodes@.len() as int),
{
    let ghost nodes0 = old(tree).nodes@;
    let ghost d = shape_of(nodes0);
    let n = tree.nodes.len();
    let mut diags: Vec<Diagnostic> = Vec::new();
    let mut s: usize = 0;
    while s < n
        invariant
            reg.wf(),
            nodes0 == old(tree).nodes@,
            tree_wf(nodes0),
            nodes0.len() <= usize::MAX as int,
            d == shape_of(nodes0),
            n == nodes0.len(),
            tree.nodes@.len() == n,
            forall|i: int|
                0 <= i < n ==> (#[trigger] tree.nodes@[i]).data == nodes0[i].data
                    && tree.nodes@[i].parent == nodes0[i].parent && tree.nodes@[i].location
                    == nodes0[i].location,
            s <= n,
            forall|i: int|
                0 <= i < s ==> type_names((#[trigger] tree.nodes@[i]).types@) == cur_types(
                    d,
                    *reg,
                    i,
                    s as int,
                ),
            diags@ == diags_model(nodes0, *reg, s as int),
        decreases n - s,
    {
        proof {
            assert(shape_of(tree.nodes@) =~= d);
            assert(d[s as int] == nodes0[s as int].data);
        }
        let (newt, dkind, widen): (Vec<Type>, Option<DiagKind>, Option<(usize, Vec<Type>)>) =
            match &tree.nodes[s].data {
            NodeData::BooleanLiteral(_) => {
                let v = singleton_type("bool");
                (v, Option::None, Option::None)
            },
            NodeData::StringLiteral(_) => {
                let v = singleton_type("str");
                (v, Option::None, Option::None)
            },
            NodeData::NumberLiteral(_) => {
                let v = singleton_type("int");
                (v, Option::None, Option::None)
            },
            NodeData::ArrayLiteral(_) => {
                let v = singleton_type("array");
                (v, Option::None, Option::None)
            },
            NodeData::DictionaryLiteral(_) => {
                let v = singleton_type("dict");
                (v, Option::None, Option::None)
            },
            NodeData::Identifier(_)
            | NodeData::ArgumentList(_)
            | NodeData::BuildDefinition(_)
            | NodeData::BreakNode
            | NodeData::ContinueNode => {
                let v: Vec<Type> = Vec::new();
                proof {
                    assert(type_names(v@) =~= Seq::<Seq<char>>::empty());
                }
                (v, Option::None, Option::None)
            },
            NodeData::KeywordArgument(_, vc) => {
                let vc = *vc;
                proof {
                    assert(child_list(nodes0[s as int].data) =~= seq![vc]);
                    assert(child_list(nodes0[s as int].data)[0] == vc);
                    lemma_child_cur(nodes0, d, *reg, s as int, vc as int, s as int);
                }
                let v = clone_types(&tree.nodes[vc].types);
                (v, Option::None, Option::None)
            },
            NodeData::BinaryExpression(lc, op, rc) => {
                let lc = *lc;
                let rc = *rc;
                let op = *op;
                proof {
                    assert(child_list(nodes0[s as int].data) =~= seq![lc, rc]);
                    assert(child_list(nodes0[s as int].data)[0] == lc);
                    assert(child_list(nodes0[s as int].data)[1] == rc);
                    lemma_child_cur(nodes0, d, *reg, s as int, lc as int, s as int);
                    lemma_child_cur(nodes0, d, *reg, s as int, rc as int, s as int);
                }
                let v = binop_types_exec(op, &tree.nodes[lc].types, &tree.nodes[rc].types);
                let dk: Option<DiagKind> = if v.len() == 0 {
                    Option::Some(DiagKind::OperatorTypeMismatch)
                } else {
                    Option::None
                };
                (v, dk, Option::None)
            },
            NodeData::AssignmentStatement(lc, _, rc) => {
                let lc = *lc;
                let rc = *rc;
                proof {
                    assert(child_list(nodes0[s as int].data) =~= seq![lc, rc]);
                    assert(child_list(nodes0[s as int].data)[0] == lc);
                    assert(child_list(nodes0[s as int].data)[1] == rc);
                    lemma_child_cur(nodes0, d, *reg, s as int, lc as int, s as int);
                    lemma_child_cur(nodes0, d, *reg, s as int, rc as int, s as int);
                }
                let merged = union_of(&tree.nodes[lc].types, &tree.nodes[rc].types);
                let v: Vec<Type> = Vec::new();
                proof {
                    assert(type_names(v@) =~= Seq::<Seq<char>>::empty());
                    assert(is_assign_of(d, s as int, lc as int));
                    assert(type_names(merged@) == final_types(d, *reg, lc as int)) by {
                        assert(assigned_by(d, lc as int));
                        let p = choose|p: int| is_assign_of(d, p, lc as int);
                        assert(is_assign_of(shape_of(nodes0), p, lc as int));
                        lemma_assign_parent(nodes0, p, lc as int);
                        assert(nodes0[lc as int].parent == Option::Some((p as usize)));
                        assert(nodes0[lc as int].parent == Option::Some((s as usize)));
                        assert(p == s as int);
                        assert(assign_rhs(d, p) == rc as int);
                    }
                }
                (v, Option::None, Option::Some((lc, merged)))
            },
            NodeData::ConditionalExpression(cv, tv, ev) => {
                let combined = concat_indexes(tv, ev);
                proof {
                    assert(child_list(nodes0[s as int].data) =~= cv@ + tv@ + ev@);
                    assert forall|x: int|
                        0 <= x < combined@.len() implies ((#[trigger] combined@[x]) as int) < s
                        as int && (combined@[x] as int) < tree.nodes@.len() && type_names(
                        tree.nodes@[combined@[x] as int].types@,
                    ) == mtypes(shape_of(tree.nodes@), *reg, combined@[x] as int) by {
                        assert(child_list(nodes0[s as int].data)[cv@.len() + x] == combined@[x]);
                        lemma_child_cur(nodes0, d, *reg, s as int, combined@[x] as int, s as int);
                    }
                }
                let v = union_children(&tree.nodes, &combined, Ghost(*reg), Ghost(s as int));
                proof {
                    assert(combined@ == tv@ + ev@);
                    assert(mtypes(d, *reg, s as int) == mlist(d, *reg, tv@ + ev@, s as int));
                    assert(type_names(v@) == mtypes(d, *reg, s as int));
                }
                (v, Option::None, Option::None)
            },
            NodeData::FunctionCall(fname, ac) => {
                let ac = *ac;
                proof {
                    assert(child_list(nodes0[s as int].data) =~= seq![ac]);
                    assert(child_list(nodes0[s as int].data)[0] == ac);
                    lemma_child_cur(nodes0, d, *reg, s as int, ac as int, s as int);
                    assert forall|x: int|
                        0 <= x < arg_children(shape_of(tree.nodes@), ac as int).len() implies ((
                        #[trigger] arg_children(shape_of(tree.nodes@), ac as int)[x]) as int) < ac
                        as int && type_names(
                        tree.nodes@[arg_children(shape_of(tree.nodes@), ac as int)[x] as int].types@,
                    ) == mtypes(
                        shape_of(tree.nodes@),
                        *reg,
                        arg_children(shape_of(tree.nodes@), ac as int)[x] as int,
                    ) by {
                        let c = arg_children(d, ac as int)[x] as int;
                        assert(d[ac as int] == nodes0[ac as int].data);
                        assert(child_list(nodes0[ac as int].data)[x] as int == c);
                        lemma_child_cur(nodes0, d, *reg, ac as int, c, s as int);
                    }
                }
                let args = collect_args(&tree.nodes, ac, Ghost(*reg));
                let posv = args.0;
                let kwsv = args.1;
                proof {
                    assert(shape_of(tree.nodes@) == d);
                    assert(crate::binder::pos_names(posv@) == tlist(
                        d,
                        *reg,
                        pos_children(d, arg_children(d, ac as int)),
                        ac as int,
                    ));
                    assert(crate::binder::entry_names(kwsv@) == kw_names_of(
                        d,
                        kw_children(d, arg_children(d, ac as int)),
                    ));
                    assert(crate::binder::entry_types(kwsv@) == tlist(
                        d,
                        *reg,
                        kw_children(d, arg_children(d, ac as int)),
                        ac as int,
                    ));
                }
                let ghost fo = func_lookup(reg.functions@, fname@);
                proof {
                    assert(mtypes(d, *reg, s as int) == call_types(d, *reg, fo, ac as int));
                    assert(node_diag(d, *reg, s as int) == call_diag(d, *reg, fo, ac as int));
                }
                let (v, dk): (Vec<Type>, Option<DiagKind>) = match reg.lookup_function(fname) {
                    Option::None => {
                        let v: Vec<Type> = Vec::new();
                        proof {
                            assert(type_names(v@) =~= Seq::<Seq<char>>::empty());
                            assert(fo is None);
                            assert(call_types(d, *reg, fo, ac as int) == Seq::<
                                Seq<char>,
                            >::empty());
                            assert(type_names(v@) == mtypes(d, *reg, s as int));
                            assert(node_diag(d, *reg, s as int) == Option::Some(
                                DiagKind::UnknownCallable,
                            ));
                        }
                        (v, Option::Some(DiagKind::UnknownCallable))
                    },
                    Option::Some(fsig) => {
                        proof {
                            crate::registry::lemma_func_lookup_wf(reg.functions@, fname@);
                        }
                        match bind(fsig, &posv, &kwsv) {
                            Result::Ok(b) => {
                                proof {
                                    assert(bind_check(
                                        *fsig,
                                        crate::binder::pos_names(posv@),
                                        crate::binder::entry_names(kwsv@),
                                        crate::binder::entry_types(kwsv@),
                                    ) is None);
                                    assert(type_names(b.return_types@) == type_names(
                                        fsig.return_types@,
                                    ));
                                    assert(call_types(
                                        d,
                                        *reg,
                                        func_lookup(reg.functions@, fname@),
                                        ac as int,
                                    ) == type_names(fsig.return_types@));
                                    assert(type_names(b.return_types@) == mtypes(
                                        d,
                                        *reg,
                                        s as int,
                                    ));
                                    assert(node_diag(d, *reg, s as int) is None);
                                }
                                (b.return_types, Option::None)
                            },
                            Result::Err(k) => {
                                let v: Vec<Type> = Vec::new();
                                proof {
                                    assert(type_names(v@) =~= Seq::<Seq<char>>::empty());
                                    assert(call_types(
                                        d,
                                        *reg,
                                        func_lookup(reg.functions@, fname@),
                                        ac as int,
                                    ) =~= Seq::<Seq<char>>::empty());
                                    assert(call_diag(
                                        d,
                                        *reg,
                                        func_lookup(reg.functions@, fname@),
                                        ac as int,
                                    ) == Option::Some(k));
                                    assert(type_names(v@) == mtypes(d, *reg, s as int));
                                    assert(node_diag(d, *reg, s as int) == Option::Some(k));
                                }
                                (v, Option::Some(k))
                            },
                        }
                    },
                };
                proof {
                    assert(type_names(v@) == mtypes(d, *reg, s as int));
                    assert(dk == node_diag(d, *reg, s as int));
                }
                (v, dk, Option::None)
            },
            NodeData::MethodCall(rv, mname, ac) => {
                let rv = *rv;
                let ac = *ac;
                proof {
                    assert(child_list(nodes0[s as int].data) =~= seq![rv, ac]);
                    assert(child_list(nodes0[s as int].data)[0] == rv);
                    assert(child_list(nodes0[s as int].data)[1] == ac);
                    lemma_child_cur(nodes0, d, *reg, s as int, rv as int, s as int);
                    lemma_child_cur(nodes0, d, *reg, s as int, ac as int, s as int);
                    assert forall|x: int|
                        0 <= x < arg_children(shape_of(tree.nodes@), ac as int).len() implies ((
                        #[trigger] arg_children(shape_of(tree.nodes@), ac as int)[x]) as int) < ac
                        as int && type_names(
                        tree.nodes@[arg_children(shape_of(tree.nodes@), ac as int)[x] as int].types@,
                    ) == mtypes(
                        shape_of(tree.nodes@),
                        *reg,
                        arg_children(shape_of(tree.nodes@), ac as int)[x] as int,
                    ) by {
                        let c = arg_children(d, ac as int)[x] as int;
                        assert(d[ac as int] == nodes0[ac as int].data);
                        assert(child_list(nodes0[ac as int].data)[x] as int == c);
                        lemma_child_cur(nodes0, d, *reg, ac as int, c, s as int);
                    }
                }
                let args = collect_args(&tree.nodes, ac, Ghost(*reg));
                let posv = args.0;
                let kwsv = args.1;
                proof {
                    assert(shape_of(tree.nodes@) == d);
                    assert(crate::binder::pos_names(posv@) == tlist(
                        d,
                        *reg,
                        pos_children(d, arg_children(d, ac as int)),
                        ac as int,
                    ));
                    assert(crate::binder::entry_names(kwsv@) == kw_names_of(
                        d,
                        kw_children(d, arg_children(d, ac as int)),
                    ));
                    assert(crate::binder::entry_types(kwsv@) == tlist(
                        d,
                        *reg,
                        kw_children(d, arg_children(d, ac as int)),
                        ac as int,
                    ));
                }
                let ghost recvn = mtypes(d, *reg, rv as int);
                let resolved = resolve_method_first(reg, &tree.nodes[rv].types, mname);
                proof {
                    assert(type_names(tree.nodes@[rv as int].types@) == recvn);
                }
                let ghost fo = resolve_call(*reg, recvn, mname@);
                proof {
                    assert(mtypes(d, *reg, s as int) == call_types(d, *reg, fo, ac as int));
                    assert(node_diag(d, *reg, s as int) == call_diag(d, *reg, fo, ac as int));
                }
                let (v, dk): (Vec<Type>, Option<DiagKind>) = match resolved {
                    Option::Some(m) => {
                        proof {
                            assert(first_method(reg.methods@, recvn, mname@) == Option::Some(*m));
                            lemma_first_method_wf(reg.methods@, recvn, mname@);
                            assert(fo == Option::Some(m.function));
                        }
                        match bind(&m.function, &posv, &kwsv) {
                            Result::Ok(b) => {
                                proof {
                                    assert(call_types(d, *reg, fo, ac as int) == type_names(
                                        m.function.return_types@,
                                    ));
                                    assert(type_names(b.return_types@) == mtypes(
                                        d,
                                        *reg,
                                        s as int,
                                    ));
                                    assert(node_diag(d, *reg, s as int) is None);
                                }
                                (b.return_types, Option::None)
                            },
                            Result::Err(k) => {
                                let v: Vec<Type> = Vec::new();
                                proof {
                                    assert(type_names(v@) =~= Seq::<Seq<char>>::empty());
                                    assert(call_types(d, *reg, fo, ac as int) =~= Seq::<
                                        Seq<char>,
                                    >::empty());
                                    assert(type_names(v@) == mtypes(d, *reg, s as int));
                                    assert(node_diag(d, *reg, s as int) == Option::Some(k));
                                }
                                (v, Option::Some(k))
                            },
                        }
                    },
                    Option::None => {
                        match reg.lookup_function(mname) {
                            Option::None => {
                                let v: Vec<Type> = Vec::new();
                                proof {
                                    assert(type_names(v@) =~= Seq::<Seq<char>>::empty());
                                    assert(fo is None);
                                    assert(type_names(v@) == mtypes(d, *reg, s as int));
                                    assert(node_diag(d, *reg, s as int) == Option::Some(
                                        DiagKind::UnknownCallable,
                                    ));
                                }
                                (v, Option::Some(DiagKind::UnknownCallable))
                            },
                            Option::Some(fsig) => {
                                proof {
                                    crate::registry::lemma_func_lookup_wf(reg.functions@, mname@);
                                    assert(fo == Option::Some(*fsig));
                                }
                                match bind(fsig, &posv, &kwsv) {
                                    Result::Ok(b) => {
                                        proof {
                                            assert(call_types(d, *reg, fo, ac as int)
                                                == type_names(fsig.return_types@));
                                            assert(type_names(b.return_types@) == mtypes(
                                                d,
                                                *reg,
                                                s as int,
                                            ));
                                            assert(node_diag(d, *reg, s as int) is None);
                                        }
                                        (b.return_types, Option::None)
                                    },
                                    Result::Err(k) => {
                                        let v: Vec<Type> = Vec::new();
                                        proof {
                                            assert(type_names(v@) =~= Seq::<
                                                Seq<char>,
                                            >::empty());
                                            assert(call_types(d, *reg, fo, ac as int) =~= Seq::<
                                                Seq<char>,
                                            >::empty());
                                            assert(type_names(v@) == mtypes(d, *reg, s as int));
                                            assert(node_diag(d, *reg, s as int) == Option::Some(
                                                k,
                                            ));
                                        }
                                        (v, Option::Some(k))
                                    },
                                }
                            },
                        }
                    },
                };
                proof {
                    assert(type_names(v@) == mtypes(d, *reg, s as int));
                    assert(dk == node_diag(d, *reg, s as int));
                }
                (v, dk, Option::None)
            },
        };
        proof {
            assert(type_names(newt@) == mtypes(d, *reg, s as int));
            assert(dkind == node_diag(d, *reg, s as int));
            assert(match widen {
                Option::Some((lt, m)) => is_assign_of(d, s as int, lt as int) && (lt as int) < s
                    as int && type_names(m@) == final_types(d, *reg, lt as int),
                Option::None => forall|q: int| !is_assign_of(d, s as int, q),
            });
        }
        let ghost pre = tree.nodes@;
        tree.nodes[s].types = newt;
        let ghost widen_spec = widen;
        match widen {
            Option::Some((lt, merged)) => {
                tree.nodes[lt].types = merged;
            },
            Option::None => {},
        }
        let ghost dpre = diags@;
        match dkind {
            Option::Some(k2) => {
                let loc = tree.nodes[s].location.clone();
                diags.push(Diagnostic { location: loc, kind: k2 });
            },
            Option::None => {},
        }
        proof {
            // the shape is untouched: only `types` fields changed
            assert forall|i: int|
                0 <= i < n implies (#[trigger] tree.nodes@[i]).data == nodes0[i].data
                && tree.nodes@[i].parent == nodes0[i].parent && tree.nodes@[i].location
                == nodes0[i].location by {
                assert(pre[i].data == nodes0[i].data);
            }
            // every node up to and including `s` now shows its step-(s+1) types
            assert forall|i: int|
                0 <= i < s + 1 implies type_names((#[trigger] tree.nodes@[i]).types@) == cur_types(
                d,
                *reg,
                i,
                s as int + 1,
            ) by {
                if i == s as int {
                    assert(type_names(tree.nodes@[i].types@) == mtypes(d, *reg, i));
                    if exists|p: int| #[trigger] is_assign_of(d, p, s as int) && p < s as int + 1 {
                        let p = choose|p: int|
                            #[trigger] is_assign_of(d, p, s as int) && p < s as int + 1;
                        lemma_assign_parent(nodes0, p, s as int);
                        assert(false);
                    }
                } else {
                    match widen_spec {
                        Option::Some((lt, m)) => {
                            if i == lt as int {
                                assert(type_names(tree.nodes@[i].types@) == final_types(
                                    d,
                                    *reg,
                                    i,
                                ));
                                assert(is_assign_of(d, s as int, i) && (s as int) < s as int + 1);
                                assert(cur_types(d, *reg, i, s as int + 1) == final_types(
                                    d,
                                    *reg,
                                    i,
                                ));
                            } else {
                                assert(tree.nodes@[i].types == pre[i].types);
                                assert(type_names(pre[i].types@) == cur_types(d, *reg, i, s as int));
                                assert forall|p: int|
                                    is_assign_of(d, p, i) && p < s as int + 1 implies p < s
                                    as int by {
                                    if p == s as int {
                                        assert(i == lt as int);
                                    }
                                }
                                assert(cur_types(d, *reg, i, s as int + 1) == cur_types(
                                    d,
                                    *reg,
                                    i,
                                    s as int,
                                ));
                            }
                        },
                        Option::None => {
                            assert(tree.nodes@[i].types == pre[i].types);
                            assert(type_names(pre[i].types@) == cur_types(d, *reg, i, s as int));
                            assert forall|p: int|
                                is_assign_of(d, p, i) && p < s as int + 1 implies p < s as int by {
                                if p == s as int {
                                    assert(!is_assign_of(d, s as int, i));
                                }
                            }
                            assert(cur_types(d, *reg, i, s as int + 1) == cur_types(
                                d,
                                *reg,
                                i,
                                s as int,
                            ));
                        },
                    }
                }
            }
            // the diagnostics list grew by exactly this node's diagnostic
            assert(diags_model(nodes0, *reg, s as int + 1) == diags_model(nodes0, *reg, s as int)
                + (match node_diag(d, *reg, s as int) {
                Option::Some(k) => seq![
                    Diagnostic { location: nodes0[s as int].location, kind: k },
                ],
                Option::None => Seq::<Diagnostic>::empty(),
            }));
            match dkind {
                Option::Some(k2) => {
                    assert(diags@ =~= dpre + seq![
                        Diagnostic { location: nodes0[s as int].location, kind: k2 },
                    ]);
                },
                Option::None => {
                    assert(dpre + Seq::<Diagnostic>::empty() =~= dpre);
                },
            }
            assert(diags@ == diags_model(nodes0, *reg, s as int + 1));
        }
        s = s + 1;
    }
    proof {
        assert forall|i: int|
            0 <= i < n implies cur_types(d, *reg, i, n as int) == final_types(d, *reg, i) by {
            if assigned_by(d, i) {
                let p = choose|p: int| is_assign_of(d, p, i);
                assert(is_assign_of(d, p, i) && p < n as int);
            }
        }
        assert(shape_of(tree.nodes@) =~= d);
        assert(tree_wf(tree.nodes@)) by {
            assert forall|j: int, k: int|
                0 <= j < tree.nodes@.len() && 0 <= k < child_list(tree.nodes@[j].data).len()
                implies ((#[trigger] child_list(tree.nodes@[j].data)[k]) as int) < j && tree.nodes@[(
            child_list(tree.nodes@[j].data)[k]) as int].parent == Option::Some((j as usize)) by {
                assert(tree.nodes@[j].data == nodes0[j].data);
                assert(child_list(nodes0[j].data)[k] == child_list(tree.nodes@[j].data)[k]);
            }
        }
    }
    diags
}

} // verus!
