//! The signature registry: two namespaces, free functions keyed by name and
//! methods keyed by (receiver type, name). It is filled once from the built-in
//! catalog and only read afterwards.

use vstd::prelude::*;

use crate::ast::{Function, Method};
use crate::diag::DiagKind;

verus! {

/// The first function of `s` named `name`, if any.
pub open spec fn func_lookup(s: Seq<Function>, name: Seq<char>) -> Option<Function>
    decreases s.len(),
{
    if s.len() == 0 {
        Option::None
    } else if s[0].name@ == name {
        Option::Some(s[0])
    } else {
        func_lookup(s.drop_first(), name)
    }
}

/// The first method of `s` bound to receiver type `parent` under `name`.
pub open spec fn method_lookup(s: Seq<Method>, parent: Seq<char>, name: Seq<char>) -> Option<
    Method,
>
    decreases s.len(),
{
    if s.len() == 0 {
        Option::None
    } else if s[0].parent@ == parent && s[0].function.name@ == name {
        Option::Some(s[0])
    } else {
        method_lookup(s.drop_first(), parent, name)
    }
}

pub struct Registry {
    pub functions: Vec<Function>,
    pub methods: Vec<Method>,
}

impl Registry {
    /// Every registered signature is well formed, function names are unique,
    /// and (receiver, name) pairs of methods are unique.
    pub open spec fn wf(&self) -> bool {
        &&& forall|i: int| 0 <= i < self.functions@.len() ==> (#[trigger] self.functions@[i]).wf()
        &&& forall|i: int, j: int|
            0 <= i < j < self.functions@.len() ==> (#[trigger] self.functions@[i]).name@ != (
            #[trigger] self.functions@[j]).name@
        &&& forall|i: int| 0 <= i < self.methods@.len() ==> (#[trigger] self.methods@[i]).function.wf()
        &&& forall|i: int, j: int|
            0 <= i < j < self.methods@.len() ==> !((#[trigger] self.methods@[i]).parent@ == (
            #[trigger] self.methods@[j]).parent@ && self.methods@[i].function.name@
                == self.methods@[j].function.name@)
    }

    pub fn new() -> (r: Registry)
        ensures
            r.wf(),
            r.functions@.len() == 0,
            r.methods@.len() == 0,
    {
        Registry { functions: Vec::new(), methods: Vec::new() }
    }

    /// Registers a free function; refuses a second function of the same name.
    pub fn register_function(&mut self, f: Function) -> (r: Result<(), DiagKind>)
        requires
            old(self).wf(),
            f.wf(),
        ensures
            final (self).wf(),
            match r {
                Result::Ok(()) => func_lookup(old(self).functions@, f.name@) is None
                    && final (self).functions@ == old(self).functions@.push(f),
                Result::Err(k) => k == DiagKind::DuplicateSignature && func_lookup(
                    old(self).functions@,
                    f.name@,
                ) is Some && *final (self) == *old(self),
            },
            final (self).methods@ == old(self).methods@,
    {
        let mut i: usize = 0;
        while i < self.functions.len()
            invariant
                old(self).wf(),
                i <= self.functions@.len(),
                *self == *old(self),
                forall|j: int| 0 <= j < i ==> (#[trigger] self.functions@[j]).name@ != f.name@,
            decreases self.functions@.len() - i,
        {
            if self.functions[i].name == f.name {
                proof {
                    lemma_func_lookup_found(self.functions@, f.name@, i as int);
                }
                return Result::Err(DiagKind::DuplicateSignature);
            }
            i = i + 1;
        }
        proof {
            lemma_func_lookup_absent(self.functions@, f.name@);
        }
        self.functions.push(f);
        Result::Ok(())
    }

    /// Registers a method; refuses a second method of the same name on the
    /// same receiver type.
    pub fn register_method(&mut self, m: Method) -> (r: Result<(), DiagKind>)
        requires
            old(self).wf(),
            m.function.wf(),
        ensures
            final (self).wf(),
            match r {
                Result::Ok(()) => method_lookup(
                    old(self).methods@,
                    m.parent@,
                    m.function.name@,
                ) is None && final (self).methods@ == old(self).methods@.push(m),
                Result::Err(k) => k == DiagKind::DuplicateSignature && method_lookup(
                    old(self).methods@,
                    m.parent@,
                    m.function.name@,
                ) is Some && *final (self) == *old(self),
            },
            final (self).functions@ == old(self).functions@,
    {
        let mut i: usize = 0;
        while i < self.methods.len()
            invariant
                old(self).wf(),
                i <= self.methods@.len(),
                *self == *old(self),
                forall|j: int|
                    0 <= j < i ==> !((#[trigger] self.methods@[j]).parent@ == m.parent@
                        && self.methods@[j].function.name@ == m.function.name@),
            decreases self.methods@.len() - i,
        {
            if self.methods[i].parent.name == m.parent.name && self.methods[i].function.name
                == m.function.name {
                proof {
                    lemma_method_lookup_found(self.methods@, m.parent@, m.function.name@, i as int);
                }
                return Result::Err(DiagKind::DuplicateSignature);
            }
            i = i + 1;
        }
        proof {
            lemma_method_lookup_absent(self.methods@, m.parent@, m.function.name@);
        }
        self.methods.push(m);
        Result::Ok(())
    }

    /// Looks a free function up by name.
    pub fn lookup_function(&self, name: &String) -> (r: Option<&Function>)
        ensures
            match r {
                Option::Some(f) => func_lookup(self.functions@, name@) == Option::Some(*f),
                Option::None => func_lookup(self.functions@, name@) is None,
            },
    {
        let mut i: usize = 0;
        while i < self.functions.len()
            invariant
                i <= self.functions@.len(),
                forall|j: int| 0 <= j < i ==> (#[trigger] self.functions@[j]).name@ != name@,
            decreases self.functions@.len() - i,
        {
            if self.functions[i].name == *name {
                proof {
                    lemma_func_lookup_found(self.functions@, name@, i as int);
                }
                return Option::Some(&self.functions[i]);
            }
            i = i + 1;
        }
        proof {
            lemma_func_lookup_absent(self.functions@, name@);
        }
        Option::None
    }

    /// Looks a method up by receiver type and name; the receiver must match
    /// exactly, there is no widening between built-in types.
    pub fn lookup_method(&self, receiver: &crate::ast::Type, name: &String) -> (r: Option<
        &Method,
    >)
        ensures
            match r {
                Option::Some(m) => method_lookup(self.methods@, receiver@, name@) == Option::Some(
                    *m,
                ),
                Option::None => method_lookup(self.methods@, receiver@, name@) is None,
            },
    {
        let mut i: usize = 0;
        while i < self.methods.len()
            invariant
                i <= self.methods@.len(),
                forall|j: int|
                    0 <= j < i ==> !((#[trigger] self.methods@[j]).parent@ == receiver@
                        && self.methods@[j].function.name@ == name@),
            decreases self.methods@.len() - i,
        {
            if self.methods[i].parent.name == receiver.name && self.methods[i].function.name
                == *name {
                proof {
                    lemma_method_lookup_found(self.methods@, receiver@, name@, i as int);
                }
                return Option::Some(&self.methods[i]);
            }
            i = i + 1;
        }
        proof {
            lemma_method_lookup_absent(self.methods@, receiver@, name@);
        }
        Option::None
    }
}

/// If every name before `i` differs and `s[i]` matches, the lookup finds `s[i]`.
proof fn lemma_func_lookup_found(s: Seq<Function>, name: Seq<char>, i: int)
    requires
        0 <= i < s.len(),
        s[i].name@ == name,
        forall|j: int| 0 <= j < i ==> (#[trigger] s[j]).name@ != name,
    ensures
        func_lookup(s, name) == Option::Some(s[i]),
    decreases i,
{
    if i > 0 {
        assert(s.drop_first()[i - 1] == s[i]);
        assert(forall|j: int| 0 <= j < i - 1 ==> (#[trigger] s.drop_first()[j]).name@ != name);
        lemma_func_lookup_found(s.drop_first(), name, i - 1);
    }
}

proof fn lemma_func_lookup_absent(s: Seq<Function>, name: Seq<char>)
    requires
        forall|j: int| 0 <= j < s.len() ==> (#[trigger] s[j]).name@ != name,
    ensures
        func_lookup(s, name) is None,
    decreases s.len(),
{
    if s.len() > 0 {
        assert(forall|j: int|
            0 <= j < s.drop_first().len() ==> (#[trigger] s.drop_first()[j]).name@ != name);
        lemma_func_lookup_absent(s.drop_first(), name);
    }
}

proof fn lemma_method_lookup_found(s: Seq<Method>, parent: Seq<char>, name: Seq<char>, i: int)
    requires
        0 <= i < s.len(),
        s[i].parent@ == parent,
        s[i].function.name@ == name,
        forall|j: int|
            0 <= j < i ==> !((#[trigger] s[j]).parent@ == parent && s[j].function.name@ == name),
    ensures
        method_lookup(s, parent, name) == Option::Some(s[i]),
    decreases i,
{
    if i > 0 {
        assert(s.drop_first()[i - 1] == s[i]);
        assert(forall|j: int|
            0 <= j < i - 1 ==> !((#[trigger] s.drop_first()[j]).parent@ == parent
                && s.drop_first()[j].function.name@ == name));
        lemma_method_lookup_found(s.drop_first(), parent, name, i - 1);
    }
}

/// A function found in a well-formed list is well formed.
pub proof fn lemma_func_lookup_wf(s: Seq<Function>, name: Seq<char>)
    requires
        forall|i: int| 0 <= i < s.len() ==> (#[trigger] s[i]).wf(),
        func_lookup(s, name) is Some,
    ensures
        func_lookup(s, name).unwrap().wf(),
    decreases s.len(),
{
    if s.len() > 0 && s[0].name@ != name {
        assert(forall|i: int| 0 <= i < s.drop_first().len() ==> (#[trigger] s.drop_first()[i]).wf());
        lemma_func_lookup_wf(s.drop_first(), name);
    }
}

/// A method found in a well-formed list carries a well-formed function.
pub proof fn lemma_method_lookup_wf(s: Seq<Method>, parent: Seq<char>, name: Seq<char>)
    requires
        forall|i: int| 0 <= i < s.len() ==> (#[trigger] s[i]).function.wf(),
        method_lookup(s, parent, name) is Some,
    ensures
        method_lookup(s, parent, name).unwrap().function.wf(),
    decreases s.len(),
{
    if s.len() > 0 && !(s[0].parent@ == parent && s[0].function.name@ == name) {
        assert(forall|i: int|
            0 <= i < s.drop_first().len() ==> (#[trigger] s.drop_first()[i]).function.wf());
        lemma_method_lookup_wf(s.drop_first(), parent, name);
    }
}

proof fn lemma_method_lookup_absent(s: Seq<Method>, parent: Seq<char>, name: Seq<char>)
    requires
        forall|j: int|
            0 <= j < s.len() ==> !((#[trigger] s[j]).parent@ == parent && s[j].function.name@
                == name),
    ensures
        method_lookup(s, parent, name) is None,
    decreases s.len(),
{
    if s.len() > 0 {
        assert(forall|j: int|
            0 <= j < s.drop_first().len() ==> !((#[trigger] s.drop_first()[j]).parent@ == parent
                && s.drop_first()[j].function.name@ == name));
        lemma_method_lookup_absent(s.drop_first(), parent, name);
    }
}

} // verus!
