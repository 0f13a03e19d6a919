//! What a program declares: its algebras, their impls, its structs and methods.

use vstd::prelude::*;

use crate::ast::{AxiomDecl, DerivativeRuleDecl, Field, FnDecl, FnSig, GenericParam, Type};
use crate::table::views;
use crate::text::same;

verus! {

/// A declared algebra.
pub struct AlgebraEntry {
    pub name: String,
    pub generics: Vec<GenericParam>,
    pub bounds: Vec<String>,
    pub fns: Vec<FnSig>,
    pub axioms: Vec<AxiomDecl>,
    pub derivative_rules: Vec<DerivativeRuleDecl>,
    /// The names of the concrete types that the algebra governs.
    pub candidates: Vec<String>,
}

/// A declared struct.
pub struct StructEntry {
    pub name: String,
    pub generics: Vec<GenericParam>,
    pub fields: Vec<Field>,
}

/// A declared impl of an algebra.
pub struct ImplEntry {
    pub algebra: String,
    pub generics: Vec<GenericParam>,
    pub targets: Vec<Type>,
    /// How the target is written, where the impl has one target and no generics.
    pub named: Option<String>,
}

/// A method that a struct has by itself.
pub struct InherentEntry {
    pub struct_name: String,
    pub method: FnDecl,
    pub generics: Vec<GenericParam>,
    pub target: Type,
}

/// What a program declares, in the order of declaration.
pub struct Registry {
    pub algebras: Vec<AlgebraEntry>,
    pub structs: Vec<StructEntry>,
    pub impls: Vec<ImplEntry>,
    pub inherent: Vec<InherentEntry>,
}

/// The place of the first algebra of that name, from the `i`th on.
pub open spec fn algebra_from(r: Registry, i: nat, name: Seq<char>) -> Option<int>
    decreases r.algebras@.len() - i,
{
    if i >= r.algebras@.len() {
        None
    } else if r.algebras@[i as int].name@ == name {
        Some(i as int)
    } else {
        algebra_from(r, i + 1, name)
    }
}

/// The place of the first struct of that name, from the `i`th on.
pub open spec fn struct_from(r: Registry, i: nat, name: Seq<char>) -> Option<int>
    decreases r.structs@.len() - i,
{
    if i >= r.structs@.len() {
        None
    } else if r.structs@[i as int].name@ == name {
        Some(i as int)
    } else {
        struct_from(r, i + 1, name)
    }
}

/// The place of the first function of that name, from the `i`th on.
pub open spec fn fn_from(fns: Seq<FnSig>, i: nat, name: Seq<char>) -> Option<int>
    decreases fns.len() - i,
{
    if i >= fns.len() {
        None
    } else if fns[i as int].name@ == name {
        Some(i as int)
    } else {
        fn_from(fns, i + 1, name)
    }
}

/// The place of the first method of that struct and name, from the `i`th on.
pub open spec fn inherent_from(
    r: Registry,
    i: nat,
    struct_name: Seq<char>,
    method: Seq<char>,
) -> Option<int>
    decreases r.inherent@.len() - i,
{
    if i >= r.inherent@.len() {
        None
    } else if r.inherent@[i as int].struct_name@ == struct_name
        && r.inherent@[i as int].method.name@ == method {
        Some(i as int)
    } else {
        inherent_from(r, i + 1, struct_name, method)
    }
}

/// The place of the first field of that name, from the `i`th on.
pub open spec fn field_from(fields: Seq<Field>, i: nat, name: Seq<char>) -> Option<int>
    decreases fields.len() - i,
{
    if i >= fields.len() {
        None
    } else if fields[i as int].name@ == name {
        Some(i as int)
    } else {
        field_from(fields, i + 1, name)
    }
}

/// Whether one of the impls from the `i`th on is of the algebra and written so.
pub open spec fn named_from(r: Registry, i: nat, algebra: Seq<char>, text: Seq<char>) -> bool
    decreases r.impls@.len() - i,
{
    i < r.impls@.len() && ((r.impls@[i as int].algebra@ == algebra && (
    r.impls@[i as int].named matches Some(n) && n@ == text)) || named_from(
        r,
        i + 1,
        algebra,
        text,
    ))
}

/// The algebras, from the `i`th on, that declare a function of that name with
/// that many parameters.
pub open spec fn declaring_from(r: Registry, i: nat, name: Seq<char>, arity: nat) -> Seq<
    Seq<char>,
>
    decreases r.algebras@.len() - i,
{
    if i >= r.algebras@.len() {
        Seq::empty()
    } else {
        let a = r.algebras@[i as int];
        let rest = declaring_from(r, i + 1, name, arity);
        match fn_from(a.fns@, 0, name) {
            Some(k) => if a.fns@[k].params@.len() == arity {
                seq![a.name@] + rest
            } else {
                rest
            },
            None => rest,
        }
    }
}

impl Registry {
    pub open spec fn algebra_of(&self, name: Seq<char>) -> Option<AlgebraEntry> {
        match algebra_from(*self, 0, name) {
            Some(i) => Some(self.algebras@[i]),
            None => None,
        }
    }

    pub open spec fn struct_of(&self, name: Seq<char>) -> Option<StructEntry> {
        match struct_from(*self, 0, name) {
            Some(i) => Some(self.structs@[i]),
            None => None,
        }
    }

    pub open spec fn sig_of(&self, algebra: Seq<char>, name: Seq<char>) -> Option<FnSig> {
        match self.algebra_of(algebra) {
            Some(a) => match fn_from(a.fns@, 0, name) {
                Some(k) => Some(a.fns@[k]),
                None => None,
            },
            None => None,
        }
    }

    pub open spec fn method_of(&self, struct_name: Seq<char>, method: Seq<char>) -> Option<
        InherentEntry,
    > {
        match inherent_from(*self, 0, struct_name, method) {
            Some(i) => Some(self.inherent@[i]),
            None => None,
        }
    }

    pub open spec fn declares_algebra(&self, name: Seq<char>) -> bool {
        self.algebra_of(name) is Some
    }

    pub open spec fn declares_struct(&self, name: Seq<char>) -> bool {
        self.struct_of(name) is Some
    }

    pub open spec fn generics_of(&self, algebra: Seq<char>) -> Seq<GenericParam> {
        match self.algebra_of(algebra) {
            Some(a) => a.generics@,
            None => Seq::empty(),
        }
    }

    pub open spec fn bounds_of(&self, algebra: Seq<char>) -> Seq<Seq<char>> {
        match self.algebra_of(algebra) {
            Some(a) => views(a.bounds@),
            None => Seq::empty(),
        }
    }

    pub open spec fn candidates_of(&self, algebra: Seq<char>) -> Seq<Seq<char>> {
        match self.algebra_of(algebra) {
            Some(a) => views(a.candidates@),
            None => Seq::empty(),
        }
    }

    /// Nothing is declared.
    pub fn new() -> (r: Self)
        ensures
            r.algebras@.len() == 0,
            r.structs@.len() == 0,
            r.impls@.len() == 0,
            r.inherent@.len() == 0,
    {
        Registry {
            algebras: Vec::new(),
            structs: Vec::new(),
            impls: Vec::new(),
            inherent: Vec::new(),
        }
    }

    pub fn algebra(&self, name: &str) -> (r: Option<&AlgebraEntry>)
        ensures
            match r {
                Some(a) => self.algebra_of(name@) == Some(*a),
                None => self.algebra_of(name@) is None,
            },
    {
        let mut i: usize = 0;
        while i < self.algebras.len()
            invariant
                i <= self.algebras.len(),
                algebra_from(*self, 0, name@) == algebra_from(*self, i as nat, name@),
            decreases self.algebras.len() - i,
        {
            if same(self.algebras[i].name.as_str(), name) {
                return Some(&self.algebras[i]);
            }
            i = i + 1;
        }
        None
    }

    pub fn has_algebra(&self, name: &str) -> (r: bool)
        ensures
            r == self.declares_algebra(name@),
    {
        self.algebra(name).is_some()
    }

    pub fn struct_entry(&self, name: &str) -> (r: Option<&StructEntry>)
        ensures
            match r {
                Some(s) => self.struct_of(name@) == Some(*s),
                None => self.struct_of(name@) is None,
            },
    {
        let mut i: usize = 0;
        while i < self.structs.len()
            invariant
                i <= self.structs.len(),
                struct_from(*self, 0, name@) == struct_from(*self, i as nat, name@),
            decreases self.structs.len() - i,
        {
            if same(self.structs[i].name.as_str(), name) {
                return Some(&self.structs[i]);
            }
            i = i + 1;
        }
        None
    }

    pub fn has_struct(&self, name: &str) -> (r: bool)
        ensures
            r == self.declares_struct(name@),
    {
        self.struct_entry(name).is_some()
    }

    pub fn fn_sig(&self, algebra: &str, name: &str) -> (r: Option<&FnSig>)
        ensures
            match r {
                Some(s) => self.sig_of(algebra@, name@) == Some(*s),
                None => self.sig_of(algebra@, name@) is None,
            },
    {
        match self.algebra(algebra) {
            Some(a) => find_fn(&a.fns, name),
            None => None,
        }
    }

    pub fn inherent_method(&self, struct_name: &str, method: &str) -> (r: Option<&InherentEntry>)
        ensures
            match r {
                Some(m) => self.method_of(struct_name@, method@) == Some(*m),
                None => self.method_of(struct_name@, method@) is None,
            },
    {
        let mut i: usize = 0;
        while i < self.inherent.len()
            invariant
                i <= self.inherent.len(),
                inherent_from(*self, 0, struct_name@, method@) == inherent_from(
                    *self,
                    i as nat,
                    struct_name@,
                    method@,
                ),
            decreases self.inherent.len() - i,
        {
            let e = &self.inherent[i];
            if same(e.struct_name.as_str(), struct_name) && same(e.method.name.as_str(), method) {
                return Some(&self.inherent[i]);
            }
            i = i + 1;
        }
        None
    }

    pub fn has_impl_named(&self, algebra: &str, text: &str) -> (r: bool)
        ensures
            r == named_from(*self, 0, algebra@, text@),
    {
        let mut i: usize = 0;
        while i < self.impls.len()
            invariant
                i <= self.impls.len(),
                named_from(*self, 0, algebra@, text@) == named_from(
                    *self,
                    i as nat,
                    algebra@,
                    text@,
                ),
            decreases self.impls.len() - i,
        {
            if same(self.impls[i].algebra.as_str(), algebra) {
                if let Some(n) = &self.impls[i].named {
                    if same(n.as_str(), text) {
                        return true;
                    }
                }
            }
            i = i + 1;
        }
        false
    }

    pub fn algebras_with_fn(&self, name: &str, arity: usize) -> (r: Vec<String>)
        ensures
            views(r@) == declaring_from(*self, 0, name@, arity as nat),
    {
        let mut out: Vec<String> = Vec::new();
        let mut i: usize = 0;
        while i < self.algebras.len()
            invariant
                i <= self.algebras.len(),
                declaring_from(*self, 0, name@, arity as nat) == views(out@) + declaring_from(
                    *self,
                    i as nat,
                    name@,
                    arity as nat,
                ),
            decreases self.algebras.len() - i,
        {
            let a = &self.algebras[i];
            let ghost before = views(out@);
            if let Some(sig) = find_fn(&a.fns, name) {
                if sig.params.len() == arity {
                    out.push(a.name.clone());
                    assert(views(out@) =~= before.push(a.name@));
                    assert(before + (seq![a.name@] + declaring_from(
                        *self,
                        (i + 1) as nat,
                        name@,
                        arity as nat,
                    )) =~= views(out@) + declaring_from(
                        *self,
                        (i + 1) as nat,
                        name@,
                        arity as nat,
                    ));
                }
            }
            i = i + 1;
        }
        out
    }
}

/// The first function of that name.
pub fn find_fn<'a>(fns: &'a Vec<FnSig>, name: &str) -> (r: Option<&'a FnSig>)
    ensures
        match r {
            Some(s) => match fn_from(fns@, 0, name@) {
                Some(k) => *s == fns@[k],
                None => false,
            },
            None => fn_from(fns@, 0, name@) is None,
        },
{
    let mut i: usize = 0;
    while i < fns.len()
        invariant
            i <= fns.len(),
            fn_from(fns@, 0, name@) == fn_from(fns@, i as nat, name@),
        decreases fns.len() - i,
    {
        if same(fns[i].name.as_str(), name) {
            return Some(&fns[i]);
        }
        i = i + 1;
    }
    None
}

/// The first field of that name.
pub fn find_field<'a>(fields: &'a Vec<Field>, name: &str) -> (r: Option<&'a Field>)
    ensures
        match r {
            Some(f) => match field_from(fields@, 0, name@) {
                Some(k) => *f == fields@[k],
                None => false,
            },
            None => field_from(fields@, 0, name@) is None,
        },
{
    let mut i: usize = 0;
    while i < fields.len()
        invariant
            i <= fields.len(),
            field_from(fields@, 0, name@) == field_from(fields@, i as nat, name@),
        decreases fields.len() - i,
    {
        if same(fields[i].name.as_str(), name) {
            return Some(&fields[i]);
        }
        i = i + 1;
    }
    None
}

} // verus!
