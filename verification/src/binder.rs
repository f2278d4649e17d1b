//! The binder/validator: matches a call site's positional and keyword
//! arguments against a signature, reporting the first relevant mismatch as a
//! diagnostic kind, or the per-argument parameter mapping on success.

use vstd::prelude::*;

use crate::ast::{
    clone_types, contains_name, has_varargs, lemma_min_pos_le_len, type_names, Function, Kwarg,
    PositionalArgument, Type,
};
use crate::diag::DiagKind;

verus! {

/// A keyword argument as supplied at a call site, already type-inferred.
#[derive(Debug)]
pub struct KeywordEntry {
    pub name: String,
    pub types: Vec<Type>,
}

/// A successful binding: for each supplied positional argument the index of
/// the parameter that consumed it, for each supplied keyword argument the
/// index of the keyword parameter it names, and the signature's return types.
#[derive(Debug)]
pub struct Binding {
    pub positional_params: Vec<usize>,
    pub keyword_params: Vec<usize>,
    pub return_types: Vec<Type>,
}

/// Whether an argument with possible types `arg` is acceptable to a parameter
/// restricted to `allowed`: an empty restriction accepts anything, otherwise
/// some possible type must be allowed.
pub open spec fn accepts(arg: Seq<Seq<char>>, allowed: Seq<Seq<char>>) -> bool {
    allowed.len() == 0 || exists|x: int, y: int|
        0 <= x < arg.len() && 0 <= y < allowed.len() && arg[x] == allowed[y]
}

/// The first keyword parameter of `s` named `name`, if any.
pub open spec fn kw_lookup(s: Seq<Kwarg>, name: Seq<char>) -> Option<Kwarg>
    decreases s.len(),
{
    if s.len() == 0 {
        Option::None
    } else if s[0].name@ == name {
        Option::Some(s[0])
    } else {
        kw_lookup(s.drop_first(), name)
    }
}

/// The index of the first keyword parameter of `s` named `name`.
pub open spec fn kw_index(s: Seq<Kwarg>, name: Seq<char>) -> int
    decreases s.len(),
{
    if s.len() == 0 {
        0
    } else if s[0].name@ == name {
        0
    } else {
        1 + kw_index(s.drop_first(), name)
    }
}

/// The index of the positional parameter that consumes the `j`-th supplied
/// positional argument: one parameter per argument until the variadic
/// parameter, which stands last and consumes every remaining argument.
pub open spec fn pos_param_index(args: Seq<PositionalArgument>, j: int) -> int {
    if has_varargs(args) && j >= args.len() - 1 {
        args.len() - 1
    } else {
        j
    }
}

/// Whether `k` positional arguments overrun the signature's upper bound.
pub open spec fn arity_excess(f: Function, k: int) -> bool {
    match f.max_pos_args {
        Option::Some(m) => k > m as int,
        Option::None => false,
    }
}

/// The outcome of validating a call against a signature, checked in order:
/// arity, unknown keywords, missing required keywords, argument types.
/// `None` means the call binds.
pub open spec fn bind_check(
    f: Function,
    pos: Seq<Seq<Seq<char>>>,
    kwn: Seq<Seq<char>>,
    kwt: Seq<Seq<Seq<char>>>,
) -> Option<DiagKind> {
    let k = pos.len() as int;
    if k < f.min_pos_args as int {
        Option::Some(DiagKind::TooFewArguments)
    } else if arity_excess(f, k) {
        Option::Some(DiagKind::TooManyArguments)
    } else if exists|i: int| 0 <= i < kwn.len() && (#[trigger] kw_lookup(f.kwargs@, kwn[i])) is None {
        Option::Some(DiagKind::UnknownKeyword)
    } else if exists|i: int|
        0 <= i < f.kwargs@.len() && !(#[trigger] f.kwargs@[i]).opt && !kwn.contains(
            f.kwargs@[i].name@,
        ) {
        Option::Some(DiagKind::MissingRequiredKeyword)
    } else if (exists|j: int|
        0 <= j < k && !accepts(
            #[trigger] pos[j],
            type_names(f.args@[pos_param_index(f.args@, j)].types@),
        )) || (exists|i: int|
        0 <= i < kwn.len() && !accepts(
            #[trigger] kwt[i],
            type_names(kw_lookup(f.kwargs@, kwn[i]).unwrap().types@),
        )) {
        Option::Some(DiagKind::TypeMismatch)
    } else {
        Option::None
    }
}

/// The per-argument type sets of supplied positional arguments.
pub open spec fn pos_names(pos: Seq<Vec<Type>>) -> Seq<Seq<Seq<char>>> {
    pos.map_values(|v: Vec<Type>| type_names(v@))
}

pub open spec fn entry_names(kws: Seq<KeywordEntry>) -> Seq<Seq<char>> {
    kws.map_values(|e: KeywordEntry| e.name@)
}

pub open spec fn entry_types(kws: Seq<KeywordEntry>) -> Seq<Seq<Seq<char>>> {
    kws.map_values(|e: KeywordEntry| type_names(e.types@))
}

proof fn lemma_kw_found(s: Seq<Kwarg>, name: Seq<char>, i: int)
    requires
        0 <= i < s.len(),
        s[i].name@ == name,
        forall|j: int| 0 <= j < i ==> (#[trigger] s[j]).name@ != name,
    ensures
        kw_lookup(s, name) == Option::Some(s[i]),
        kw_index(s, name) == i,
    decreases i,
{
    if i > 0 {
        assert(s.drop_first()[i - 1] == s[i]);
        assert(forall|j: int| 0 <= j < i - 1 ==> (#[trigger] s.drop_first()[j]).name@ != name);
        lemma_kw_found(s.drop_first(), name, i - 1);
    }
}

proof fn lemma_kw_absent(s: Seq<Kwarg>, name: Seq<char>)
    requires
        forall|j: int| 0 <= j < s.len() ==> (#[trigger] s[j]).name@ != name,
    ensures
        kw_lookup(s, name) is None,
    decreases s.len(),
{
    if s.len() > 0 {
        assert(forall|j: int|
            0 <= j < s.drop_first().len() ==> (#[trigger] s.drop_first()[j]).name@ != name);
        lemma_kw_absent(s.drop_first(), name);
    }
}

/// Finds the keyword parameter a supplied keyword argument names.
fn find_kwarg(ks: &Vec<Kwarg>, name: &String) -> (r: Option<usize>)
    ensures
        match r {
            Option::Some(i) => i < ks@.len() && kw_lookup(ks@, name@) == Option::Some(
                ks@[i as int],
            ) && kw_index(ks@, name@) == i as int,
            Option::None => kw_lookup(ks@, name@) is None,
        },
{
    let mut i: usize = 0;
    while i < ks.len()
        invariant
            i <= ks@.len(),
            forall|j: int| 0 <= j < i ==> (#[trigger] ks@[j]).name@ != name@,
        decreases ks@.len() - i,
    {
        if ks[i].name == *name {
            proof {
                lemma_kw_found(ks@, name@, i as int);
            }
            return Option::Some(i);
        }
        i = i + 1;
    }
    proof {
        lemma_kw_absent(ks@, name@);
    }
    Option::None
}

/// Whether some supplied keyword argument carries `name`.
fn kws_contain(kws: &Vec<KeywordEntry>, name: &String) -> (r: bool)
    ensures
        r == entry_names(kws@).contains(name@),
{
    let mut i: usize = 0;
    while i < kws.len()
        invariant
            i <= kws@.len(),
            forall|j: int| 0 <= j < i ==> (#[trigger] kws@[j]).name@ != name@,
        decreases kws@.len() - i,
    {
        if kws[i].name == *name {
            assert(entry_names(kws@)[i as int] == name@);
            return true;
        }
        i = i + 1;
    }
    assert(forall|j: int| 0 <= j < kws@.len() ==> entry_names(kws@)[j] != name@);
    false
}

/// Whether the argument's possible types satisfy the parameter's restriction.
pub fn accepts_exec(arg: &Vec<Type>, allowed: &Vec<Type>) -> (r: bool)
    ensures
        r == accepts(type_names(arg@), type_names(allowed@)),
{
    if allowed.len() == 0 {
        return true;
    }
    let mut x: usize = 0;
    while x < arg.len()
        invariant
            x <= arg@.len(),
            allowed@.len() > 0,
            forall|a: int, b: int|
                0 <= a < x && 0 <= b < allowed@.len() ==> (#[trigger] arg@[a])@ != (
                #[trigger] allowed@[b])@,
        decreases arg@.len() - x,
    {
        if contains_name(allowed, &arg[x].name) {
            let ghost b = choose|b: int|
                0 <= b < type_names(allowed@).len() && type_names(allowed@)[b] == arg@[x as int]@;
            assert(type_names(arg@)[x as int] == type_names(allowed@)[b]);
            return true;
        }
        proof {
            assert forall|b: int| 0 <= b < allowed@.len() implies arg@[x as int]@ != (
            #[trigger] allowed@[b])@ by {
                assert(type_names(allowed@)[b] == allowed@[b]@);
                assert(!type_names(allowed@).contains(arg@[x as int]@));
            }
        }
        x = x + 1;
    }
    assert forall|a: int, b: int|
        !(0 <= a < type_names(arg@).len() && 0 <= b < type_names(allowed@).len() && type_names(
            arg@,
        )[a] == type_names(allowed@)[b]) by {
        if 0 <= a < arg@.len() && 0 <= b < allowed@.len() {
            assert(arg@[a]@ != allowed@[b]@);
        }
    }
    false
}

/// Validates the supplied arguments against `f` and binds them to its
/// parameters. The result is exactly what `bind_check` predicts: the first
/// relevant mismatch, or the parameter mapping and `f`'s return types.
pub fn bind(f: &Function, pos: &Vec<Vec<Type>>, kws: &Vec<KeywordEntry>) -> (r: Result<
    Binding,
    DiagKind,
>)
    requires
        f.wf(),
    ensures
        match bind_check(*f, pos_names(pos@), entry_names(kws@), entry_types(kws@)) {
            Option::Some(k) => r == Result::<Binding, DiagKind>::Err(k),
            Option::None => r matches Result::Ok(b) && b.positional_params@.len() == pos@.len() && (
            forall|j: int|
                0 <= j < pos@.len() ==> (#[trigger] b.positional_params@[j]) as int
                    == pos_param_index(f.args@, j)) && b.keyword_params@.len() == kws@.len() && (
            forall|i: int|
                0 <= i < kws@.len() ==> (#[trigger] b.keyword_params@[i]) as int == kw_index(
                    f.kwargs@,
                    kws@[i].name@,
                )) && b.return_types@ == f.return_types@,
        },
{
    let ghost pn = pos_names(pos@);
    let ghost kn = entry_names(kws@);
    let ghost kt = entry_types(kws@);
    let k = pos.len();
    if k < f.min_pos_args {
        return Result::Err(DiagKind::TooFewArguments);
    }
    if let Option::Some(m) = f.max_pos_args {
        if k > m {
            return Result::Err(DiagKind::TooManyArguments);
        }
    }
    assert(!(pn.len() < f.min_pos_args as int) && !arity_excess(*f, pn.len() as int));

    // Keyword binding: resolve each supplied keyword, refusing unknown names.
    let mut kw_params: Vec<usize> = Vec::new();
    let mut i: usize = 0;
    while i < kws.len()
        invariant
            f.wf(),
            pn == pos_names(pos@),
            kn == entry_names(kws@),
            kt == entry_types(kws@),
            !(pn.len() < f.min_pos_args as int),
            !arity_excess(*f, pn.len() as int),
            i <= kws@.len(),
            kw_params@.len() == i,
            forall|x: int|
                0 <= x < i ==> (#[trigger] kw_params@[x]) < f.kwargs@.len() && kw_lookup(
                    f.kwargs@,
                    kws@[x].name@,
                ) == Option::Some(f.kwargs@[kw_params@[x] as int]) && kw_params@[x] as int
                    == kw_index(f.kwargs@, kws@[x].name@),
        decreases kws@.len() - i,
    {
        match find_kwarg(&f.kwargs, &kws[i].name) {
            Option::Some(idx) => {
                kw_params.push(idx);
            },
            Option::None => {
                proof {
                    assert(kn[i as int] == kws@[i as int].name@);
                    assert(kw_lookup(f.kwargs@, kn[i as int]) is None);
                }
                return Result::Err(DiagKind::UnknownKeyword);
            },
        }
        i = i + 1;
    }
    proof {
        assert forall|x: int| 0 <= x < kn.len() implies (#[trigger] kw_lookup(f.kwargs@, kn[x])) is Some by {
            assert(kw_params@[x] < f.kwargs@.len());
            assert(kn[x] == kws@[x].name@);
        }
    }

    // Required-keyword check.
    let mut q: usize = 0;
    while q < f.kwargs.len()
        invariant
            f.wf(),
            pn == pos_names(pos@),
            kn == entry_names(kws@),
            kt == entry_types(kws@),
            !(pn.len() < f.min_pos_args as int),
            !arity_excess(*f, pn.len() as int),
            forall|x: int|
                0 <= x < kn.len() ==> (#[trigger] kw_lookup(f.kwargs@, kn[x])) is Some,
            q <= f.kwargs@.len(),
            forall|x: int|
                0 <= x < q ==> (#[trigger] f.kwargs@[x]).opt || kn.contains(f.kwargs@[x].name@),
        decreases f.kwargs@.len() - q,
    {
        if !f.kwargs[q].opt {
            if !kws_contain(kws, &f.kwargs[q].name) {
                assert(!(f.kwargs@[q as int]).opt && !kn.contains(f.kwargs@[q as int].name@));
                return Result::Err(DiagKind::MissingRequiredKeyword);
            }
        }
        q = q + 1;
    }

    // Positional binding and per-argument type check.
    let mut pos_params: Vec<usize> = Vec::new();
    let mut j: usize = 0;
    while j < k
        invariant
            f.wf(),
            pn == pos_names(pos@),
            kn == entry_names(kws@),
            kt == entry_types(kws@),
            k == pos@.len(),
            !(pn.len() < f.min_pos_args as int),
            !arity_excess(*f, pn.len() as int),
            forall|x: int|
                0 <= x < kn.len() ==> (#[trigger] kw_lookup(f.kwargs@, kn[x])) is Some,
            forall|x: int|
                0 <= x < f.kwargs@.len() ==> (#[trigger] f.kwargs@[x]).opt || kn.contains(
                    f.kwargs@[x].name@,
                ),
            j <= k,
            pos_params@.len() == j,
            forall|x: int|
                0 <= x < j ==> (#[trigger] pos_params@[x]) as int == pos_param_index(f.args@, x),
            forall|x: int|
                0 <= x < j ==> accepts(
                    #[trigger] pn[x],
                    type_names(f.args@[pos_param_index(f.args@, x)].types@),
                ),
        decreases k - j,
    {
        let pi: usize = match f.max_pos_args {
            Option::None => {
                assert(has_varargs(f.args@));
                if j + 1 >= f.args.len() {
                    f.args.len() - 1
                } else {
                    j
                }
            },
            Option::Some(_) => j,
        };
        assert(pi as int == pos_param_index(f.args@, j as int));
        proof {
            assert(pn[j as int] == type_names(pos@[j as int]@));
        }
        if !accepts_exec(&pos[j], &f.args[pi].types) {
            assert(!accepts(pn[j as int], type_names(f.args@[pos_param_index(f.args@, j as int)].types@)));
            return Result::Err(DiagKind::TypeMismatch);
        }
        assert(accepts(pn[j as int], type_names(f.args@[pos_param_index(f.args@, j as int)].types@)));
        pos_params.push(pi);
        j = j + 1;
    }

    // Keyword type check.
    let mut w: usize = 0;
    while w < kws.len()
        invariant
            f.wf(),
            pn == pos_names(pos@),
            kn == entry_names(kws@),
            kt == entry_types(kws@),
            k == pos@.len(),
            !(pn.len() < f.min_pos_args as int),
            !arity_excess(*f, pn.len() as int),
            forall|x: int|
                0 <= x < kn.len() ==> (#[trigger] kw_lookup(f.kwargs@, kn[x])) is Some,
            forall|x: int|
                0 <= x < f.kwargs@.len() ==> (#[trigger] f.kwargs@[x]).opt || kn.contains(
                    f.kwargs@[x].name@,
                ),
            pos_params@.len() == k,
            forall|x: int|
                0 <= x < k ==> (#[trigger] pos_params@[x]) as int == pos_param_index(f.args@, x),
            forall|x: int|
                0 <= x < k ==> accepts(
                    #[trigger] pn[x],
                    type_names(f.args@[pos_param_index(f.args@, x)].types@),
                ),
            kw_params@.len() == kws@.len(),
            forall|x: int|
                0 <= x < kws@.len() ==> (#[trigger] kw_params@[x]) < f.kwargs@.len() && kw_lookup(
                    f.kwargs@,
                    kws@[x].name@,
                ) == Option::Some(f.kwargs@[kw_params@[x] as int]) && kw_params@[x] as int
                    == kw_index(f.kwargs@, kws@[x].name@),
            w <= kws@.len(),
            forall|x: int|
                0 <= x < w ==> accepts(
                    kt[x],
                    type_names((#[trigger] kw_lookup(f.kwargs@, kn[x])).unwrap().types@),
                ),
        decreases kws@.len() - w,
    {
        let idx = kw_params[w];
        proof {
            assert(kt[w as int] == type_names(kws@[w as int].types@));
            assert(kn[w as int] == kws@[w as int].name@);
            assert(kw_lookup(f.kwargs@, kn[w as int]) == Option::Some(f.kwargs@[idx as int]));
        }
        if !accepts_exec(&kws[w].types, &f.kwargs[idx].types) {
            assert(!accepts(kt[w as int], type_names(kw_lookup(f.kwargs@, kn[w as int]).unwrap().types@)));
            return Result::Err(DiagKind::TypeMismatch);
        }
        w = w + 1;
    }

    proof {
        assert forall|j2: int|
            0 <= j2 < pn.len() implies accepts(
            #[trigger] pn[j2],
            type_names(f.args@[pos_param_index(f.args@, j2)].types@),
        ) by {
            assert(pos_params@[j2] as int == pos_param_index(f.args@, j2));
        }
    }
    assert(bind_check(*f, pn, kn, kt) is None);
    Result::Ok(
        Binding {
            positional_params: pos_params,
            keyword_params: kw_params,
            return_types: clone_types(&f.return_types),
        },
    )
}

/// A call supplying exactly the demanded number of positional arguments and
/// every required keyword, each argument acceptable to its parameter, always
/// binds.
pub proof fn lemma_exact_arity_binds(
    f: Function,
    pos: Seq<Seq<Seq<char>>>,
    kwn: Seq<Seq<char>>,
    kwt: Seq<Seq<Seq<char>>>,
)
    requires
        f.wf(),
        pos.len() == f.min_pos_args,
        kwt.len() == kwn.len(),
        forall|i: int| 0 <= i < kwn.len() ==> (#[trigger] kw_lookup(f.kwargs@, kwn[i])) is Some,
        forall|i: int|
            0 <= i < f.kwargs@.len() ==> (#[trigger] f.kwargs@[i]).opt || kwn.contains(
                f.kwargs@[i].name@,
            ),
        forall|j: int|
            0 <= j < pos.len() ==> accepts(
                #[trigger] pos[j],
                type_names(f.args@[pos_param_index(f.args@, j)].types@),
            ),
        forall|i: int|
            0 <= i < kwn.len() ==> accepts(
                #[trigger] kwt[i],
                type_names(kw_lookup(f.kwargs@, kwn[i]).unwrap().types@),
            ),
    ensures
        bind_check(f, pos, kwn, kwt) is None,
{
    lemma_min_pos_le_len(f.args@);
}

/// A call supplying one positional argument fewer than demanded fails with
/// `TooFewArguments`, whatever its keywords.
pub proof fn lemma_too_few_arguments(
    f: Function,
    pos: Seq<Seq<Seq<char>>>,
    kwn: Seq<Seq<char>>,
    kwt: Seq<Seq<Seq<char>>>,
)
    requires
        f.wf(),
        f.min_pos_args as int >= 1,
        pos.len() == f.min_pos_args as int - 1,
    ensures
        bind_check(f, pos, kwn, kwt) == Option::Some(DiagKind::TooFewArguments),
{
}

/// A call supplying one positional argument more than the bounded maximum
/// fails with `TooManyArguments`, whatever its keywords.
pub proof fn lemma_too_many_arguments(
    f: Function,
    pos: Seq<Seq<Seq<char>>>,
    kwn: Seq<Seq<char>>,
    kwt: Seq<Seq<Seq<char>>>,
)
    requires
        f.wf(),
        f.max_pos_args is Some,
        pos.len() == f.max_pos_args.unwrap() as int + 1,
    ensures
        bind_check(f, pos, kwn, kwt) == Option::Some(DiagKind::TooManyArguments),
{
    lemma_min_pos_le_len(f.args@);
}

} // verus!
