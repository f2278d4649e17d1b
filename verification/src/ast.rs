//! Data model of the analysis core: nominal type identities, parameter and
//! signature descriptors, and the arena-backed expression tree that inference
//! runs over.

use vstd::prelude::*;

verus! {

/// A nominal type identity. Two types are the same exactly when their names are.
#[derive(Debug)]
pub struct Type {
    pub name: String,
}

impl View for Type {
    type V = Seq<char>;

    open spec fn view(&self) -> Seq<char> {
        self.name@
    }
}

impl Type {
    pub fn new(name: String) -> (r: Type)
        ensures
            r@ == name@,
    {
        Type { name }
    }
}

impl Clone for Type {
    fn clone(&self) -> (r: Self)
        ensures
            r == *self,
    {
        Type { name: self.name.clone() }
    }
}

impl PartialEq for Type {
    fn eq(&self, other: &Self) -> (r: bool) {
        self.name == other.name
    }
}

impl vstd::std_specs::cmp::PartialEqSpecImpl for Type {
    open spec fn obeys_eq_spec() -> bool {
        true
    }

    open spec fn eq_spec(&self, other: &Type) -> bool {
        self@ == other@
    }
}

/// The sequence of type names carried by a sequence of types.
pub open spec fn type_names(s: Seq<Type>) -> Seq<Seq<char>> {
    s.map_values(|t: Type| t@)
}

/// Whether the vector of types mentions `name`.
pub fn contains_name(v: &Vec<Type>, name: &String) -> (r: bool)
    ensures
        r == type_names(v@).contains(name@),
{
    let mut i: usize = 0;
    while i < v.len()
        invariant
            i <= v@.len(),
            forall|j: int| 0 <= j < i ==> v@[j]@ != name@,
        decreases v@.len() - i,
    {
        if v[i].name == *name {
            assert(type_names(v@)[i as int] == name@);
            return true;
        }
        i = i + 1;
    }
    assert(forall|j: int| 0 <= j < v@.len() ==> type_names(v@)[j] != name@);
    false
}

pub fn clone_types(v: &Vec<Type>) -> (r: Vec<Type>)
    ensures
        r@ == v@,
{
    let mut r: Vec<Type> = Vec::new();
    let mut i: usize = 0;
    while i < v.len()
        invariant
            i <= v@.len(),
            r@ == v@.take(i as int),
        decreases v@.len() - i,
    {
        r.push(v[i].clone());
        proof {
            assert(v@.take(i + 1) =~= v@.take(i as int).push(v@[i as int]));
        }
        i = i + 1;
    }
    proof {
        assert(v@.take(v@.len() as int) =~= v@);
    }
    r
}

/// The result of adding the names of `b` to `a` in order, skipping those
/// already present: the deduplicating union that keeps both orders.
pub open spec fn union_names(a: Seq<Seq<char>>, b: Seq<Seq<char>>) -> Seq<Seq<char>>
    decreases b.len(),
{
    if b.len() == 0 {
        a
    } else {
        let a1 = if a.contains(b[0]) {
            a
        } else {
            a.push(b[0])
        };
        union_names(a1, b.drop_first())
    }
}

proof fn lemma_push_contains(s: Seq<Seq<char>>, x: Seq<char>)
    ensures
        forall|n: Seq<char>| s.push(x).contains(n) <==> s.contains(n) || n == x,
{
    assert forall|n: Seq<char>| s.push(x).contains(n) implies s.contains(n) || n == x by {
        let i = choose|i: int| 0 <= i < s.push(x).len() && s.push(x)[i] == n;
        if i < s.len() {
            assert(s[i] == n);
        }
    }
    assert forall|n: Seq<char>| s.contains(n) || n == x implies s.push(x).contains(n) by {
        if s.contains(n) {
            let i = choose|i: int| 0 <= i < s.len() && s[i] == n;
            assert(s.push(x)[i] == n);
        } else {
            assert(s.push(x)[s.len() as int] == n);
        }
    }
}

proof fn lemma_union_names_split(a: Seq<Seq<char>>, b1: Seq<Seq<char>>, b2: Seq<Seq<char>>)
    ensures
        union_names(a, b1 + b2) == union_names(union_names(a, b1), b2),
    decreases b1.len(),
{
    if b1.len() == 0 {
        assert(b1 + b2 =~= b2);
    } else {
        assert((b1 + b2)[0] == b1[0]);
        assert((b1 + b2).drop_first() =~= b1.drop_first() + b2);
        let a1 = if a.contains(b1[0]) {
            a
        } else {
            a.push(b1[0])
        };
        lemma_union_names_split(a1, b1.drop_first(), b2);
    }
}

/// The names of a deduplicating union are exactly the names of either side.
pub proof fn lemma_union_names_contains(a: Seq<Seq<char>>, b: Seq<Seq<char>>)
    ensures
        forall|n: Seq<char>| union_names(a, b).contains(n) <==> a.contains(n) || b.contains(n),
    decreases b.len(),
{
    if b.len() == 0 {
        assert(forall|n: Seq<char>| !b.contains(n));
    } else {
        let a1 = if a.contains(b[0]) {
            a
        } else {
            a.push(b[0])
        };
        lemma_push_contains(a, b[0]);
        lemma_union_names_contains(a1, b.drop_first());
        assert forall|n: Seq<char>|
            union_names(a, b).contains(n) <==> a.contains(n) || b.contains(n) by {
            assert(union_names(a, b) == union_names(a1, b.drop_first()));
            if n == b[0] {
                assert(a1.contains(n));
            }
            if b.contains(n) && n != b[0] {
                let i = choose|i: int| 0 <= i < b.len() && b[i] == n;
                assert(b.drop_first()[i - 1] == n);
            }
            if b.drop_first().contains(n) {
                let i = choose|i: int| 0 <= i < b.drop_first().len() && b.drop_first()[i] == n;
                assert(b[i + 1] == n);
            }
        }
    }
}

proof fn lemma_union_names_one(a: Seq<Seq<char>>, n: Seq<char>)
    ensures
        union_names(a, seq![n]) == if a.contains(n) {
            a
        } else {
            a.push(n)
        },
{
    let s = seq![n];
    assert(s[0] == n);
    assert(s.drop_first() =~= Seq::<Seq<char>>::empty());
    assert(union_names(a.push(n), s.drop_first()) == a.push(n));
    assert(union_names(a, s.drop_first()) == a);
}

/// Adds the types of `src` to `dst`, skipping names already present.
pub fn union_types(dst: &mut Vec<Type>, src: &Vec<Type>)
    ensures
        type_names(final(dst)@) == union_names(type_names(old(dst)@), type_names(src@)),
{
    let ghost a0 = type_names(old(dst)@);
    let ghost b = type_names(src@);
    let mut j: usize = 0;
    while j < src.len()
        invariant
            j <= src@.len(),
            b == type_names(src@),
            type_names(dst@) == union_names(a0, b.take(j as int)),
        decreases src@.len() - j,
    {
        let ghost pre = type_names(dst@);
        if !contains_name(dst, &src[j].name) {
            dst.push(src[j].clone());
            proof {
                assert(type_names(dst@) =~= pre.push(b[j as int]));
            }
        }
        proof {
            assert(b.take(j + 1) =~= b.take(j as int) + seq![b[j as int]]);
            lemma_union_names_split(a0, b.take(j as int), seq![b[j as int]]);
            lemma_union_names_one(pre, b[j as int]);
            assert(union_names(pre, seq![b[j as int]]) == type_names(dst@));
        }
        j = j + 1;
    }
    proof {
        assert(b.take(b.len() as int) =~= b);
    }
}

/// A keyword parameter of a signature: addressed by name at the call site,
/// required unless `opt`, restricted to `types` unless that list is empty.
#[derive(Debug)]
pub struct Kwarg {
    pub name: String,
    pub opt: bool,
    pub types: Vec<Type>,
}

impl Clone for Kwarg {
    fn clone(&self) -> (r: Self)
        ensures
            r.name == self.name,
            r.opt == self.opt,
            r.types@ == self.types@,
    {
        Kwarg { name: self.name.clone(), opt: self.opt, types: clone_types(&self.types) }
    }
}

impl PartialEq for Kwarg {
    fn eq(&self, other: &Self) -> (r: bool) {
        self.name == other.name
    }
}

impl vstd::std_specs::cmp::PartialEqSpecImpl for Kwarg {
    open spec fn obeys_eq_spec() -> bool {
        true
    }

    open spec fn eq_spec(&self, other: &Kwarg) -> bool {
        self.name@ == other.name@
    }
}

/// A positional parameter: bound by position, required unless `opt`; a
/// `varargs` parameter absorbs every remaining positional argument and may
/// only stand last. An empty `types` list accepts any type.
#[derive(Debug)]
pub struct PositionalArgument {
    pub name: String,
    pub opt: bool,
    pub varargs: bool,
    pub types: Vec<Type>,
}

impl Clone for PositionalArgument {
    fn clone(&self) -> (r: Self)
        ensures
            r.name == self.name,
            r.opt == self.opt,
            r.varargs == self.varargs,
            r.types@ == self.types@,
    {
        PositionalArgument {
            name: self.name.clone(),
            opt: self.opt,
            varargs: self.varargs,
            types: clone_types(&self.types),
        }
    }
}

impl PartialEq for PositionalArgument {
    fn eq(&self, other: &Self) -> (r: bool) {
        self.name == other.name
    }
}

impl vstd::std_specs::cmp::PartialEqSpecImpl for PositionalArgument {
    open spec fn obeys_eq_spec() -> bool {
        true
    }

    open spec fn eq_spec(&self, other: &PositionalArgument) -> bool {
        self.name@ == other.name@
    }
}

/// The number of positional arguments a parameter list demands: one per
/// parameter that is neither optional nor variadic.
pub open spec fn min_pos_of(s: Seq<PositionalArgument>) -> int
    decreases s.len(),
{
    if s.len() == 0 {
        0
    } else {
        min_pos_of(s.drop_last()) + if !s.last().opt && !s.last().varargs {
            1int
        } else {
            0int
        }
    }
}

pub open spec fn has_varargs(s: Seq<PositionalArgument>) -> bool {
    exists|i: int| 0 <= i < s.len() && s[i].varargs
}

/// The names of the non-optional keyword parameters, in declaration order.
pub open spec fn required_names(s: Seq<Kwarg>) -> Seq<Seq<char>>
    decreases s.len(),
{
    if s.len() == 0 {
        Seq::empty()
    } else {
        required_names(s.drop_last()) + if !s.last().opt {
            seq![s.last().name@]
        } else {
            Seq::empty()
        }
    }
}

pub proof fn lemma_min_pos_le_len(s: Seq<PositionalArgument>)
    ensures
        0 <= min_pos_of(s) <= s.len(),
    decreases s.len(),
{
    if s.len() > 0 {
        lemma_min_pos_le_len(s.drop_last());
    }
}

/// A free-function signature, with its arity bounds and required keywords
/// cached at construction.
#[derive(Debug)]
pub struct Function {
    pub name: String,
    pub return_types: Vec<Type>,
    pub args: Vec<PositionalArgument>,
    pub kwargs: Vec<Kwarg>,
    pub min_pos_args: usize,
    pub max_pos_args: Option<usize>,
    pub required_kwargs: Vec<String>,
}

pub open spec fn string_views(s: Seq<String>) -> Seq<Seq<char>> {
    s.map_values(|x: String| x@)
}

/// Shape a parameter list must have before a signature is built: the variadic
/// parameter (if any) stands last, no required positional follows an optional
/// one, and keyword names are unique.
pub open spec fn params_wf(args: Seq<PositionalArgument>, kwargs: Seq<Kwarg>) -> bool {
    &&& forall|i: int| 0 <= i < args.len() - 1 ==> !(#[trigger] args[i]).varargs
    &&& forall|i: int, j: int|
        0 <= i < j < args.len() && (#[trigger] args[i]).opt && !(#[trigger] args[j]).varargs
            ==> args[j].opt
    &&& forall|i: int, j: int|
        0 <= i < j < kwargs.len() ==> (#[trigger] kwargs[i]).name@ != (#[trigger] kwargs[j]).name@
}

impl Function {
    /// The derived fields agree with the parameter lists.
    pub open spec fn wf(&self) -> bool {
        &&& params_wf(self.args@, self.kwargs@)
        &&& self.min_pos_args == min_pos_of(self.args@)
        &&& match self.max_pos_args {
            Option::Some(m) => !has_varargs(self.args@) && m == self.args@.len(),
            Option::None => has_varargs(self.args@),
        }
        &&& string_views(self.required_kwargs@) == required_names(self.kwargs@)
    }

    /// Builds a signature, computing `min_pos_args`, `max_pos_args` and
    /// `required_kwargs` from the parameter lists.
    pub fn new(
        name: String,
        return_types: Vec<Type>,
        args: Vec<PositionalArgument>,
        kwargs: Vec<Kwarg>,
    ) -> (f: Function)
        requires
            params_wf(args@, kwargs@),
        ensures
            f.wf(),
            f.name@ == name@,
            f.return_types == return_types,
            f.args == args,
            f.kwargs == kwargs,
    {
        let mut min_pos: usize = 0;
        let mut varargs_seen = false;
        let mut i: usize = 0;
        while i < args.len()
            invariant
                i <= args@.len(),
                min_pos == min_pos_of(args@.take(i as int)),
                varargs_seen == has_varargs(args@.take(i as int)),
                min_pos <= i,
            decreases args@.len() - i,
        {
            proof {
                assert(args@.take(i + 1).drop_last() =~= args@.take(i as int));
                assert(args@.take(i + 1).last() == args@[i as int]);
            }
            if !args[i].opt && !args[i].varargs {
                min_pos = min_pos + 1;
            }
            if args[i].varargs {
                varargs_seen = true;
            }
            proof {
                if has_varargs(args@.take(i + 1)) && !has_varargs(args@.take(i as int))
                    && !args@[i as int].varargs {
                    let w = choose|w: int|
                        0 <= w < i + 1 && (#[trigger] args@.take(i + 1)[w]).varargs;
                    assert(args@.take(i as int)[w].varargs);
                }
                if args@[i as int].varargs {
                    assert(args@.take(i + 1)[i as int].varargs);
                }
                if has_varargs(args@.take(i as int)) {
                    let w = choose|w: int| 0 <= w < i && args@.take(i as int)[w].varargs;
                    assert(args@.take(i + 1)[w].varargs);
                }
            }
            i = i + 1;
        }
        proof {
            assert(args@.take(args@.len() as int) =~= args@);
        }
        let max_pos: Option<usize> = if varargs_seen {
            Option::None
        } else {
            Option::Some(args.len())
        };
        let mut required: Vec<String> = Vec::new();
        let mut j: usize = 0;
        while j < kwargs.len()
            invariant
                j <= kwargs@.len(),
                string_views(required@) == required_names(kwargs@.take(j as int)),
            decreases kwargs@.len() - j,
        {
            proof {
                assert(kwargs@.take(j + 1).drop_last() =~= kwargs@.take(j as int));
                assert(kwargs@.take(j + 1).last() == kwargs@[j as int]);
            }
            let ghost pre = string_views(required@);
            if !kwargs[j].opt {
                required.push(kwargs[j].name.clone());
                proof {
                    assert(string_views(required@) =~= pre + seq![kwargs@[j as int].name@]);
                }
            } else {
                proof {
                    assert(string_views(required@) =~= pre + Seq::<Seq<char>>::empty());
                }
            }
            j = j + 1;
        }
        proof {
            assert(kwargs@.take(kwargs@.len() as int) =~= kwargs@);
        }
        Function {
            name,
            return_types,
            args,
            kwargs,
            min_pos_args: min_pos,
            max_pos_args: max_pos,
            required_kwargs: required,
        }
    }
}

impl PartialEq for Function {
    fn eq(&self, other: &Self) -> (r: bool) {
        self.name == other.name
            && types_eq(&self.return_types, &other.return_types)
            && pos_args_eq(&self.args, &other.args)
            && usize_eq(self.min_pos_args, other.min_pos_args)
            && opt_usize_eq(&self.max_pos_args, &other.max_pos_args)
            && strings_eq(&self.required_kwargs, &other.required_kwargs)
    }
}

impl vstd::std_specs::cmp::PartialEqSpecImpl for Function {
    open spec fn obeys_eq_spec() -> bool {
        true
    }

    open spec fn eq_spec(&self, other: &Function) -> bool {
        &&& self.name@ == other.name@
        &&& type_names(self.return_types@) == type_names(other.return_types@)
        &&& arg_names(self.args@) == arg_names(other.args@)
        &&& self.min_pos_args == other.min_pos_args
        &&& self.max_pos_args == other.max_pos_args
        &&& string_views(self.required_kwargs@) == string_views(other.required_kwargs@)
    }
}

pub open spec fn arg_names(s: Seq<PositionalArgument>) -> Seq<Seq<char>> {
    s.map_values(|a: PositionalArgument| a.name@)
}

fn usize_eq(a: usize, b: usize) -> (r: bool)
    ensures
        r == (a == b),
{
    a == b
}

fn opt_usize_eq(a: &Option<usize>, b: &Option<usize>) -> (r: bool)
    ensures
        r == (a == b),
{
    match (a, b) {
        (Option::Some(x), Option::Some(y)) => *x == *y,
        (Option::None, Option::None) => true,
        _ => false,
    }
}

fn types_eq(a: &Vec<Type>, b: &Vec<Type>) -> (r: bool)
    ensures
        r == (type_names(a@) == type_names(b@)),
{
    if a.len() != b.len() {
        assert(type_names(a@).len() != type_names(b@).len());
        return false;
    }
    let mut i: usize = 0;
    while i < a.len()
        invariant
            i <= a@.len(),
            a@.len() == b@.len(),
            forall|j: int| 0 <= j < i ==> a@[j]@ == b@[j]@,
        decreases a@.len() - i,
    {
        if !(a[i] == b[i]) {
            assert(type_names(a@)[i as int] != type_names(b@)[i as int]);
            return false;
        }
        i = i + 1;
    }
    proof {
        assert(type_names(a@) =~= type_names(b@));
    }
    true
}

fn pos_args_eq(a: &Vec<PositionalArgument>, b: &Vec<PositionalArgument>) -> (r: bool)
    ensures
        r == (arg_names(a@) == arg_names(b@)),
{
    if a.len() != b.len() {
        assert(arg_names(a@).len() != arg_names(b@).len());
        return false;
    }
    let mut i: usize = 0;
    while i < a.len()
        invariant
            i <= a@.len(),
            a@.len() == b@.len(),
            forall|j: int| 0 <= j < i ==> a@[j].name@ == b@[j].name@,
        decreases a@.len() - i,
    {
        if !(a[i] == b[i]) {
            assert(arg_names(a@)[i as int] != arg_names(b@)[i as int]);
            return false;
        }
        i = i + 1;
    }
    proof {
        assert(arg_names(a@) =~= arg_names(b@));
    }
    true
}

fn strings_eq(a: &Vec<String>, b: &Vec<String>) -> (r: bool)
    ensures
        r == (string_views(a@) == string_views(b@)),
{
    if a.len() != b.len() {
        assert(string_views(a@).len() != string_views(b@).len());
        return false;
    }
    let mut i: usize = 0;
    while i < a.len()
        invariant
            i <= a@.len(),
            a@.len() == b@.len(),
            forall|j: int| 0 <= j < i ==> a@[j]@ == b@[j]@,
        decreases a@.len() - i,
    {
        if !(a[i] == b[i]) {
            assert(string_views(a@)[i as int] != string_views(b@)[i as int]);
            return false;
        }
        i = i + 1;
    }
    proof {
        assert(string_views(a@) =~= string_views(b@));
    }
    true
}

/// A method: a function narrowed by the receiver type it is invoked on.
#[derive(Debug)]
pub struct Method {
    pub parent: Type,
    pub function: Function,
}

impl Method {
    pub fn new(parent: Type, function: Function) -> (m: Method)
        ensures
            m.parent == parent,
            m.function == function,
    {
        Method { parent, function }
    }
}

impl PartialEq for Method {
    fn eq(&self, other: &Self) -> (r: bool) {
        self.parent == other.parent && self.function == other.function
    }
}

impl vstd::std_specs::cmp::PartialEqSpecImpl for Method {
    open spec fn obeys_eq_spec() -> bool {
        true
    }

    open spec fn eq_spec(&self, other: &Method) -> bool {
        &&& self.parent@ == other.parent@
        &&& self.function.name@ == other.function.name@
        &&& type_names(self.function.return_types@) == type_names(other.function.return_types@)
        &&& arg_names(self.function.args@) == arg_names(other.function.args@)
        &&& self.function.min_pos_args == other.function.min_pos_args
        &&& self.function.max_pos_args == other.function.max_pos_args
        &&& string_views(self.function.required_kwargs@) == string_views(
            other.function.required_kwargs@,
        )
    }
}

/// Every signature's arity bounds are consistent: at least `min_pos_args`
/// positional arguments are demanded, never more than `max_pos_args` fit, and
/// the upper bound is absent exactly when a variadic parameter is declared.
pub proof fn lemma_arity_bounds(f: Function)
    requires
        f.wf(),
    ensures
        match f.max_pos_args {
            Option::Some(m) => f.min_pos_args <= m,
            Option::None => true,
        },
        f.max_pos_args is None <==> has_varargs(f.args@),
{
    lemma_min_pos_le_len(f.args@);
}

/// Operators of an assignment statement.
#[derive(Debug, Clone, Copy, PartialEq, Eq, Structural)]
pub enum AssignmentOperator {
    Assign,
    AddAssign,
}

/// Operators of a binary expression.
#[derive(Debug, Clone, Copy, PartialEq, Eq, Structural)]
pub enum BinaryOperator {
    Add,
    Sub,
    Mul,
    Div,
    Mod,
    EqualTo,
    NotEqualTo,
    LessThan,
    LessEqual,
    GreaterThan,
    GreaterEqual,
    And,
    Or,
}

/// The kinds of tree nodes. Children are held as indexes into the owning
/// tree's node arena; every child index is smaller than its parent's.
#[derive(Debug)]
pub enum NodeData {
    ArgumentList(Vec<usize>),
    ArrayLiteral(Vec<usize>),
    AssignmentStatement(usize, AssignmentOperator, usize),
    BinaryExpression(usize, BinaryOperator, usize),
    BooleanLiteral(bool),
    BreakNode,
    BuildDefinition(Vec<usize>),
    ConditionalExpression(Vec<usize>, Vec<usize>, Vec<usize>),
    ContinueNode,
    DictionaryLiteral(Vec<usize>),
    StringLiteral(String),
    NumberLiteral(i64),
    Identifier(String),
    KeywordArgument(String, usize),
    FunctionCall(String, usize),
    MethodCall(usize, String, usize),
}

/// A source span, kept for diagnostics.
#[derive(Debug)]
pub struct Location {
    pub file: String,
    pub start_line: u64,
    pub end_line: u64,
    pub start_column: u64,
    pub end_column: u64,
}

impl Clone for Location {
    fn clone(&self) -> (r: Self)
        ensures
            r == *self,
    {
        Location {
            file: self.file.clone(),
            start_line: self.start_line,
            end_line: self.end_line,
            start_column: self.start_column,
            end_column: self.end_column,
        }
    }
}

/// One node of the tree: its span, a non-owning back-reference to the node
/// that lists it as a child, its kind, and the set of types inference has
/// derived for it (empty until inference runs).
#[derive(Debug)]
pub struct Node {
    pub location: Location,
    pub parent: Option<usize>,
    pub data: NodeData,
    pub types: Vec<Type>,
}

/// The arena that owns a document's nodes. Children stand before their
/// parents, so index order is a post-order traversal.
#[derive(Debug)]
pub struct Tree {
    pub nodes: Vec<Node>,
}

/// All child indexes a node kind refers to, in order.
pub open spec fn child_list(d: NodeData) -> Seq<usize> {
    match d {
        NodeData::ArgumentList(c) => c@,
        NodeData::ArrayLiteral(c) => c@,
        NodeData::AssignmentStatement(l, _, r) => seq![l, r],
        NodeData::BinaryExpression(l, _, r) => seq![l, r],
        NodeData::BooleanLiteral(_) => Seq::empty(),
        NodeData::BreakNode => Seq::empty(),
        NodeData::BuildDefinition(c) => c@,
        NodeData::ConditionalExpression(c, t, e) => c@ + t@ + e@,
        NodeData::ContinueNode => Seq::empty(),
        NodeData::DictionaryLiteral(c) => c@,
        NodeData::StringLiteral(_) => Seq::empty(),
        NodeData::NumberLiteral(_) => Seq::empty(),
        NodeData::Identifier(_) => Seq::empty(),
        NodeData::KeywordArgument(_, v) => seq![v],
        NodeData::FunctionCall(_, a) => seq![a],
        NodeData::MethodCall(r, _, a) => seq![r, a],
    }
}

/// The kinds of the nodes alone: the part of a tree that inference reads and
/// never writes.
pub open spec fn shape_of(nodes: Seq<Node>) -> Seq<NodeData> {
    nodes.map_values(|n: Node| n.data)
}

/// Every child stands before its parent, and its back-reference names that
/// parent: children are owned by exactly one node, the one the back-reference
/// points at.
pub open spec fn tree_wf(nodes: Seq<Node>) -> bool {
    &&& forall|j: int, k: int|
        0 <= j < nodes.len() && 0 <= k < child_list(nodes[j].data).len() ==> ((
        #[trigger] child_list(nodes[j].data)[k]) as int) < j
    &&& forall|j: int, k: int|
        0 <= j < nodes.len() && 0 <= k < child_list(nodes[j].data).len()
            ==> nodes[(#[trigger] child_list(nodes[j].data)[k]) as int].parent == Option::Some(
            (j as usize),
        )
}

impl Tree {
    pub open spec fn wf(&self) -> bool {
        tree_wf(self.nodes@)
    }
}

} // verus!
