//! Inference of type arguments by structural matching of types.

use crate::error::CompileError;
use crate::types::{
    find_position, lemma_position, position_from, subst_all, views, Prim, Symbol, Ty, Type,
};
use vstd::prelude::*;

verus! {

/// What is known of the type arguments while they are inferred: for each
/// generic parameter, by position, the type it stands for, once one was found.
pub open spec fn binding_views(bindings: Seq<Option<Type>>) -> Seq<Option<Ty>> {
    Seq::new(
        bindings.len(),
        |i: int|
            match bindings[i] {
                Some(t) => Some(t@),
                None => None,
            },
    )
}

/// Nothing known of `n` parameters.
pub open spec fn unbound(n: nat) -> Seq<Option<Ty>> {
    Seq::new(n, |i: int| None)
}

/// Every parameter that `b` knows stands for the type that `s` gives it.
pub open spec fn agrees(b: Seq<Option<Ty>>, s: Seq<Ty>) -> bool {
    &&& b.len() == s.len()
    &&& forall|i: int| 0 <= i < b.len() ==> ((#[trigger] b[i]) is Some ==> b[i] == Some(s[i]))
}

/// `later` knows all that `earlier` knows.
pub open spec fn extends(later: Seq<Option<Ty>>, earlier: Seq<Option<Ty>>) -> bool {
    &&& later.len() == earlier.len()
    &&& forall|i: int|
        0 <= i < earlier.len() ==> ((#[trigger] earlier[i]) is Some ==> later[i] == earlier[i])
}

impl Ty {
    /// Structural matching of a type that may mention generic parameters
    /// against another type. A parameter of `generics` that is met for the
    /// first time is bound to the type in its place; met again, it must be
    /// in the place of an equal type. Everything else must agree in shape.
    /// The result is what is known afterwards, or nothing if the types do
    /// not match.
    pub open spec fn unify(
        self,
        target: Ty,
        generics: Seq<Symbol>,
        b: Seq<Option<Ty>>,
    ) -> Option<Seq<Option<Ty>>>
        decreases self, 0nat, 0nat,
    {
        match self {
            Ty::Prim(_) => if self == target {
                Some(b)
            } else {
                None
            },
            Ty::Array(elem, len) => match target {
                Ty::Array(elem2, len2) => if len == len2 {
                    elem.unify(*elem2, generics, b)
                } else {
                    None
                },
                _ => None,
            },
            Ty::ArrayOfSize(elem, measured) => match target {
                Ty::ArrayOfSize(elem2, measured2) => match elem.unify(*elem2, generics, b) {
                    Some(b1) => measured.unify(*measured2, generics, b1),
                    None => None,
                },
                _ => None,
            },
            Ty::Slice(elem) => match target {
                Ty::Slice(elem2) => elem.unify(*elem2, generics, b),
                _ => None,
            },
            Ty::Ptr(pointee, mutable) => match target {
                Ty::Ptr(pointee2, mutable2) => if mutable == mutable2 {
                    pointee.unify(*pointee2, generics, b)
                } else {
                    None
                },
                _ => None,
            },
            Ty::Adt(kind, name, fields) => match target {
                Ty::Adt(kind2, name2, fields2) => if kind == kind2 && name == name2 && fields.len()
                    == fields2.len() {
                    Ty::unify_all(fields, fields2, generics, b, fields.len())
                } else {
                    None
                },
                _ => None,
            },
            Ty::Param(name) => match position_from(generics, name, 0) {
                Some(i) => if 0 <= i < b.len() {
                    match b[i] {
                        Some(t) => if t == target {
                            Some(b)
                        } else {
                            None
                        },
                        None => Some(b.update(i, Some(target))),
                    }
                } else if self == target {
                    Some(b)
                } else {
                    None
                },
                None => if self == target {
                    Some(b)
                } else {
                    None
                },
            },
        }
    }

    /// Matching of the first `k` types of `pats` against the types at the
    /// same positions of `targets`, one after the other.
    pub open spec fn unify_all(
        pats: Seq<Ty>,
        targets: Seq<Ty>,
        generics: Seq<Symbol>,
        b: Seq<Option<Ty>>,
        k: nat,
    ) -> Option<Seq<Option<Ty>>>
        decreases pats, 1nat, k,
    {
        if k == 0 || k > pats.len() {
            Some(b)
        } else {
            match Ty::unify_all(pats, targets, generics, b, (k - 1) as nat) {
                Some(b1) => pats[k - 1].unify(targets[k - 1], generics, b1),
                None => None,
            }
        }
    }
}

/// The type arguments `s` turn the parameter types into the argument types.
pub open spec fn solves(generics: Seq<Symbol>, params: Seq<Ty>, targets: Seq<Ty>, s: Seq<Ty>) -> bool {
    s.len() == generics.len() && subst_all(params, generics, s) == targets
}

/// `s` are the only type arguments that turn the parameter types into the
/// argument types.
pub open spec fn determines(
    generics: Seq<Symbol>,
    params: Seq<Ty>,
    targets: Seq<Ty>,
    s: Seq<Ty>,
) -> bool {
    &&& solves(generics, params, targets, s)
    &&& forall|other: Seq<Ty>| #[trigger] solves(generics, params, targets, other) ==> other == s
}

/// The argument types determine every generic parameter.
pub open spec fn inferable(generics: Seq<Symbol>, params: Seq<Ty>, targets: Seq<Ty>) -> bool {
    exists|s: Seq<Ty>| determines(generics, params, targets, s)
}

/// Matching only adds to what is known.
pub proof fn lemma_unify_extends(pat: Ty, target: Ty, generics: Seq<Symbol>, b: Seq<Option<Ty>>)
    ensures
        pat.unify(target, generics, b) matches Some(b2) ==> extends(b2, b),
    decreases pat, 0nat, 0nat,
{
    match pat {
        Ty::Array(elem, len) => match target {
            Ty::Array(elem2, len2) => lemma_unify_extends(*elem, *elem2, generics, b),
            _ => {},
        },
        Ty::ArrayOfSize(elem, measured) => match target {
            Ty::ArrayOfSize(elem2, measured2) => {
                lemma_unify_extends(*elem, *elem2, generics, b);
                match elem.unify(*elem2, generics, b) {
                    Some(b1) => lemma_unify_extends(*measured, *measured2, generics, b1),
                    None => {},
                }
            },
            _ => {},
        },
        Ty::Slice(elem) => match target {
            Ty::Slice(elem2) => lemma_unify_extends(*elem, *elem2, generics, b),
            _ => {},
        },
        Ty::Ptr(pointee, _) => match target {
            Ty::Ptr(pointee2, _) => lemma_unify_extends(*pointee, *pointee2, generics, b),
            _ => {},
        },
        Ty::Adt(_, _, fields) => match target {
            Ty::Adt(_, _, fields2) => lemma_unify_all_extends(
                fields,
                fields2,
                generics,
                b,
                fields.len(),
            ),
            _ => {},
        },
        _ => {},
    }
}

/// Matching a list only adds to what is known.
pub proof fn lemma_unify_all_extends(
    pats: Seq<Ty>,
    targets: Seq<Ty>,
    generics: Seq<Symbol>,
    b: Seq<Option<Ty>>,
    k: nat,
)
    ensures
        Ty::unify_all(pats, targets, generics, b, k) matches Some(b2) ==> extends(b2, b),
    decreases pats, 1nat, k,
{
    if 0 < k <= pats.len() {
        lemma_unify_all_extends(pats, targets, generics, b, (k - 1) as nat);
        match Ty::unify_all(pats, targets, generics, b, (k - 1) as nat) {
            Some(b1) => lemma_unify_extends(pats[k - 1], targets[k - 1], generics, b1),
            None => {},
        }
    }
}

/// Whatever type arguments agree with what a successful matching knows
/// turn the matched type into its target.
pub proof fn lemma_unify_sound(
    pat: Ty,
    target: Ty,
    generics: Seq<Symbol>,
    b: Seq<Option<Ty>>,
    s: Seq<Ty>,
)
    requires
        pat.unify(target, generics, b) is Some,
        agrees(pat.unify(target, generics, b)->0, s),
    ensures
        pat.subst(generics, s) == target,
    decreases pat, 0nat, 0nat,
{
    lemma_unify_extends(pat, target, generics, b);
    match pat {
        Ty::Prim(_) => {},
        Ty::Array(elem, len) => match target {
            Ty::Array(elem2, len2) => lemma_unify_sound(*elem, *elem2, generics, b, s),
            _ => {},
        },
        Ty::ArrayOfSize(elem, measured) => match target {
            Ty::ArrayOfSize(elem2, measured2) => {
                let b1 = elem.unify(*elem2, generics, b)->0;
                lemma_unify_extends(*measured, *measured2, generics, b1);
                lemma_unify_sound(*measured, *measured2, generics, b1, s);
                lemma_unify_sound(*elem, *elem2, generics, b, s);
            },
            _ => {},
        },
        Ty::Slice(elem) => match target {
            Ty::Slice(elem2) => lemma_unify_sound(*elem, *elem2, generics, b, s),
            _ => {},
        },
        Ty::Ptr(pointee, _) => match target {
            Ty::Ptr(pointee2, _) => lemma_unify_sound(*pointee, *pointee2, generics, b, s),
            _ => {},
        },
        Ty::Adt(_, _, fields) => match target {
            Ty::Adt(_, _, fields2) => {
                lemma_unify_all_sound(fields, fields2, generics, b, s, fields.len());
                assert(pat.subst(generics, s)->Adt_2 =~= fields2);
            },
            _ => {},
        },
        Ty::Param(name) => {
            lemma_position(generics, name, 0);
            let b2 = pat.unify(target, generics, b)->0;
            match position_from(generics, name, 0) {
                Some(i) => {
                    if 0 <= i < b.len() {
                        assert(b2[i] == Some(target));
                        assert(s[i] == target);
                    }
                },
                None => {},
            }
        },
    }
}

/// Whatever type arguments agree with what a successful matching of a list
/// knows turn each matched type into its target.
pub proof fn lemma_unify_all_sound(
    pats: Seq<Ty>,
    targets: Seq<Ty>,
    generics: Seq<Symbol>,
    b: Seq<Option<Ty>>,
    s: Seq<Ty>,
    k: nat,
)
    requires
        k <= pats.len(),
        Ty::unify_all(pats, targets, generics, b, k) is Some,
        agrees(Ty::unify_all(pats, targets, generics, b, k)->0, s),
    ensures
        forall|i: int| 0 <= i < k ==> (#[trigger] pats[i]).subst(generics, s) == targets[i],
    decreases pats, 1nat, k,
{
    if k > 0 {
        let b1 = Ty::unify_all(pats, targets, generics, b, (k - 1) as nat)->0;
        lemma_unify_extends(pats[k - 1], targets[k - 1], generics, b1);
        lemma_unify_sound(pats[k - 1], targets[k - 1], generics, b1, s);
        lemma_unify_all_sound(pats, targets, generics, b, s, (k - 1) as nat);
    }
}

/// Matching succeeds whenever some type arguments that agree with what is
/// known turn the type into its target, and what is known afterwards still
/// agrees with them.
pub proof fn lemma_unify_complete(
    pat: Ty,
    target: Ty,
    generics: Seq<Symbol>,
    b: Seq<Option<Ty>>,
    s: Seq<Ty>,
)
    requires
        agrees(b, s),
        pat.subst(generics, s) == target,
    ensures
        pat.unify(target, generics, b) is Some,
        agrees(pat.unify(target, generics, b)->0, s),
    decreases pat, 0nat, 0nat,
{
    match pat {
        Ty::Prim(_) => {},
        Ty::Array(elem, _) => lemma_unify_complete(
            *elem,
            elem.subst(generics, s),
            generics,
            b,
            s,
        ),
        Ty::ArrayOfSize(elem, measured) => {
            lemma_unify_complete(*elem, elem.subst(generics, s), generics, b, s);
            let b1 = elem.unify(elem.subst(generics, s), generics, b)->0;
            lemma_unify_complete(*measured, measured.subst(generics, s), generics, b1, s);
        },
        Ty::Slice(elem) => lemma_unify_complete(*elem, elem.subst(generics, s), generics, b, s),
        Ty::Ptr(pointee, _) => lemma_unify_complete(
            *pointee,
            pointee.subst(generics, s),
            generics,
            b,
            s,
        ),
        Ty::Adt(_, _, fields) => {
            lemma_unify_all_complete(fields, target->Adt_2, generics, b, s, fields.len());
        },
        Ty::Param(name) => {
            lemma_position(generics, name, 0);
        },
    }
}

/// Matching of a list succeeds whenever some type arguments that agree with
/// what is known turn each type into its target, and what is known
/// afterwards still agrees with them.
pub proof fn lemma_unify_all_complete(
    pats: Seq<Ty>,
    targets: Seq<Ty>,
    generics: Seq<Symbol>,
    b: Seq<Option<Ty>>,
    s: Seq<Ty>,
    k: nat,
)
    requires
        k <= pats.len(),
        agrees(b, s),
        forall|i: int| 0 <= i < k ==> (#[trigger] pats[i]).subst(generics, s) == targets[i],
    ensures
        Ty::unify_all(pats, targets, generics, b, k) is Some,
        agrees(Ty::unify_all(pats, targets, generics, b, k)->0, s),
    decreases pats, 1nat, k,
{
    if k > 0 {
        lemma_unify_all_complete(pats, targets, generics, b, s, (k - 1) as nat);
        let b1 = Ty::unify_all(pats, targets, generics, b, (k - 1) as nat)->0;
        lemma_unify_complete(pats[k - 1], targets[k - 1], generics, b1, s);
    }
}

/// Where the matching of the parameter types against the argument types
/// fails, no type arguments turn the ones into the others.
pub proof fn lemma_mismatch_has_no_solution(
    generics: Seq<Symbol>,
    params: Seq<Ty>,
    targets: Seq<Ty>,
    s: Seq<Ty>,
)
    requires
        params.len() != targets.len() || Ty::unify_all(
            params,
            targets,
            generics,
            unbound(generics.len()),
            params.len(),
        ) is None,
    ensures
        !solves(generics, params, targets, s),
{
    if solves(generics, params, targets, s) {
        assert forall|i: int| 0 <= i < params.len() implies (#[trigger] params[i]).subst(
            generics,
            s,
        ) == targets[i] by {
            assert(subst_all(params, generics, s)[i] == targets[i]);
        }
        lemma_unify_all_complete(
            params,
            targets,
            generics,
            unbound(generics.len()),
            s,
            params.len(),
        );
    }
}

/// Where the matching leaves a parameter unbound, the type arguments are
/// not determined: with any that fit, others fit that differ at that
/// parameter.
pub proof fn lemma_unbound_is_undetermined(
    generics: Seq<Symbol>,
    params: Seq<Ty>,
    targets: Seq<Ty>,
    i: int,
    s: Seq<Ty>,
)
    requires
        params.len() == targets.len(),
        Ty::unify_all(params, targets, generics, unbound(generics.len()), params.len()) is Some,
        0 <= i < generics.len(),
        Ty::unify_all(params, targets, generics, unbound(generics.len()), params.len())->0[i] is None,
    ensures
        !determines(generics, params, targets, s),
{
    if solves(generics, params, targets, s) {
        let b = Ty::unify_all(params, targets, generics, unbound(generics.len()), params.len())->0;
        assert forall|j: int| 0 <= j < params.len() implies (#[trigger] params[j]).subst(
            generics,
            s,
        ) == targets[j] by {
            assert(subst_all(params, generics, s)[j] == targets[j]);
        }
        lemma_unify_all_complete(
            params,
            targets,
            generics,
            unbound(generics.len()),
            s,
            params.len(),
        );
        let other_type = if s[i] == Ty::Prim(Prim::Unit) {
            Ty::Prim(Prim::Bool)
        } else {
            Ty::Prim(Prim::Unit)
        };
        let other = s.update(i, other_type);
        assert(agrees(b, other));
        lemma_unify_all_sound(params, targets, generics, unbound(generics.len()), other, params.len());
        assert(subst_all(params, generics, other) =~= targets);
        assert(solves(generics, params, targets, other));
        assert(other[i] != s[i]);
    }
}

/// Where the matching binds every parameter, the types it bound them to are
/// the only type arguments that fit.
pub proof fn lemma_bound_is_determined(
    generics: Seq<Symbol>,
    params: Seq<Ty>,
    targets: Seq<Ty>,
    s: Seq<Ty>,
)
    requires
        params.len() == targets.len(),
        s.len() == generics.len(),
        Ty::unify_all(params, targets, generics, unbound(generics.len()), params.len()) is Some,
        forall|i: int|
            0 <= i < s.len() ==> (#[trigger] Ty::unify_all(
                params,
                targets,
                generics,
                unbound(generics.len()),
                params.len(),
            )->0[i]) == Some(s[i]),
    ensures
        determines(generics, params, targets, s),
{
    let b = Ty::unify_all(params, targets, generics, unbound(generics.len()), params.len())->0;
    lemma_unify_all_extends(params, targets, generics, unbound(generics.len()), params.len());
    assert(agrees(b, s));
    lemma_unify_all_sound(params, targets, generics, unbound(generics.len()), s, params.len());
    assert(subst_all(params, generics, s) =~= targets);
    assert forall|other: Seq<Ty>| #[trigger]
        solves(generics, params, targets, other) implies other == s by {
        assert forall|j: int| 0 <= j < params.len() implies (#[trigger] params[j]).subst(
            generics,
            other,
        ) == targets[j] by {
            assert(subst_all(params, generics, other)[j] == targets[j]);
        }
        lemma_unify_all_complete(
            params,
            targets,
            generics,
            unbound(generics.len()),
            other,
            params.len(),
        );
        assert forall|j: int| 0 <= j < s.len() implies other[j] == s[j] by {
            assert(b[j] == Some(s[j]));
        }
        assert(other =~= s);
    }
}

/// Matches `pat` against `target` and records in `bindings` what the generic
/// parameters of `generics` stand for. Answers whether the types match;
/// where they do not, `bindings` is left in no particular state.
pub fn unify_into(
    pat: &Type,
    target: &Type,
    generics: &Vec<Symbol>,
    bindings: &mut Vec<Option<Type>>,
) -> (ok: bool)
    ensures
        ok == pat@.unify(target@, generics@, binding_views(old(bindings)@)) is Some,
        ok ==> Some(binding_views(final(bindings)@)) == pat@.unify(
            target@,
            generics@,
            binding_views(old(bindings)@),
        ),
    decreases pat,
{
    let ghost b0 = binding_views(bindings@);
    match pat {
        Type::Prim(p) => match target {
            Type::Prim(q) => *p == *q,
            _ => false,
        },
        Type::Array(elem, len) => match target {
            Type::Array(elem2, len2) => *len == *len2 && unify_into(elem, elem2, generics, bindings),
            _ => false,
        },
        Type::ArrayOfSize(elem, measured) => match target {
            Type::ArrayOfSize(elem2, measured2) => unify_into(elem, elem2, generics, bindings)
                && unify_into(measured, measured2, generics, bindings),
            _ => false,
        },
        Type::Slice(elem) => match target {
            Type::Slice(elem2) => unify_into(elem, elem2, generics, bindings),
            _ => false,
        },
        Type::Ptr(pointee, mutable) => match target {
            Type::Ptr(pointee2, mutable2) => *mutable == *mutable2 && unify_into(
                pointee,
                pointee2,
                generics,
                bindings,
            ),
            _ => false,
        },
        Type::Adt(kind, name, fields) => match target {
            Type::Adt(kind2, name2, fields2) => {
                assert(pat@->Adt_2.len() == fields.len());
                assert(target@->Adt_2.len() == fields2.len());
                if *kind != *kind2 || *name != *name2 || fields.len() != fields2.len() {
                    return false;
                }
                let mut k: usize = 0;
                while k < fields.len()
                    invariant
                        pat is Adt,
                        pat->Adt_2 == *fields,
                        target is Adt,
                        target->Adt_2 == *fields2,
                        pat->Adt_0 == target->Adt_0,
                        pat->Adt_1 == target->Adt_1,
                        fields.len() == fields2.len(),
                        b0 == binding_views(old(bindings)@),
                        k <= fields.len(),
                        Ty::unify_all(pat@->Adt_2, target@->Adt_2, generics@, b0, k as nat) == Some(
                            binding_views(bindings@),
                        ),
                    decreases fields.len() - k,
                {
                    if !unify_into(&fields[k], &fields2[k], generics, bindings) {
                        proof {
                            lemma_unify_all_fails_on(
                                pat@->Adt_2,
                                target@->Adt_2,
                                generics@,
                                b0,
                                (k + 1) as nat,
                                fields.len() as nat,
                            );
                        }
                        return false;
                    }
                    k = k + 1;
                }
                true
            },
            _ => false,
        },
        Type::Param(name) => {
            proof {
                lemma_position(generics@, *name, 0);
            }
            match find_position(generics, *name) {
                Some(i) => {
                    if i < bindings.len() {
                        let known = match &bindings[i] {
                            Some(t) => Some(t.same(target)),
                            None => None,
                        };
                        match known {
                            Some(same) => same,
                            None => {
                                bindings.set(i, Some(target.dup()));
                                assert(binding_views(bindings@) =~= b0.update(
                                    i as int,
                                    Some(target@),
                                ));
                                true
                            },
                        }
                    } else {
                        pat.same(target)
                    }
                },
                None => pat.same(target),
            }
        },
    }
}

/// Once the matching of a list has failed, it stays failed however many
/// more types are matched.
pub proof fn lemma_unify_all_fails_on(
    pats: Seq<Ty>,
    targets: Seq<Ty>,
    generics: Seq<Symbol>,
    b: Seq<Option<Ty>>,
    k: nat,
    n: nat,
)
    requires
        k <= n <= pats.len(),
        Ty::unify_all(pats, targets, generics, b, k) is None,
    ensures
        Ty::unify_all(pats, targets, generics, b, n) is None,
    decreases n,
{
    if k < n {
        lemma_unify_all_fails_on(pats, targets, generics, b, k, (n - 1) as nat);
    }
}

/// Some type arguments turn the parameter types into the argument types.
pub open spec fn matchable(generics: Seq<Symbol>, params: Seq<Ty>, targets: Seq<Ty>) -> bool {
    exists|s: Seq<Ty>| solves(generics, params, targets, s)
}

/// Type arguments that hold what `b` knows, and the unit type where it
/// knows nothing.
pub open spec fn completion(b: Seq<Option<Ty>>) -> Seq<Ty> {
    Seq::new(
        b.len(),
        |i: int|
            match b[i] {
                Some(t) => t,
                None => Ty::Prim(Prim::Unit),
            },
    )
}

/// Matching the parameter types against the argument types succeeds exactly
/// when some type arguments turn the ones into the others.
pub proof fn lemma_unify_decides(generics: Seq<Symbol>, params: Seq<Ty>, targets: Seq<Ty>)
    ensures
        matchable(generics, params, targets) <==> (params.len() == targets.len() && Ty::unify_all(
            params,
            targets,
            generics,
            unbound(generics.len()),
            params.len(),
        ) is Some),
{
    let start = unbound(generics.len());
    if params.len() == targets.len() && Ty::unify_all(
        params,
        targets,
        generics,
        start,
        params.len(),
    ) is Some {
        let b = Ty::unify_all(params, targets, generics, start, params.len())->0;
        lemma_unify_all_extends(params, targets, generics, start, params.len());
        let s = completion(b);
        assert(agrees(b, s));
        lemma_unify_all_sound(params, targets, generics, start, s, params.len());
        assert(subst_all(params, generics, s) =~= targets);
        assert(solves(generics, params, targets, s));
    } else {
        assert forall|s: Seq<Ty>| !solves(generics, params, targets, s) by {
            lemma_mismatch_has_no_solution(generics, params, targets, s);
        }
    }
}

/// Matches each type of `params` against the type at the same position of
/// `targets`. Answers what the generic parameters stand for, position by
/// position, where the types match, and nothing where they do not.
pub fn match_types(generics: &Vec<Symbol>, params: &Vec<Type>, targets: &Vec<Type>) -> (r: Option<
    Vec<Option<Type>>,
>)
    ensures
        r is Some <==> matchable(generics@, views(params@), views(targets@)),
        r matches Some(b) ==> params.len() == targets.len() && b.len() == generics.len()
            && Ty::unify_all(
            views(params@),
            views(targets@),
            generics@,
            unbound(generics@.len()),
            params@.len(),
        ) == Some(binding_views(b@)),
{
    let ghost g = generics@;
    let ghost ps = views(params@);
    let ghost ts = views(targets@);
    proof {
        lemma_unify_decides(g, ps, ts);
    }
    if params.len() != targets.len() {
        return None;
    }
    let mut bindings: Vec<Option<Type>> = Vec::new();
    let mut i: usize = 0;
    while i < generics.len()
        invariant
            i <= generics.len(),
            bindings.len() == i,
            forall|j: int| 0 <= j < i ==> bindings@[j] is None,
        decreases generics.len() - i,
    {
        bindings.push(None);
        i = i + 1;
    }
    assert(binding_views(bindings@) =~= unbound(g.len()));
    let mut k: usize = 0;
    while k < params.len()
        invariant
            g == generics@,
            ps == views(params@),
            ts == views(targets@),
            params.len() == targets.len(),
            k <= params.len(),
            Ty::unify_all(ps, ts, g, unbound(g.len()), k as nat) == Some(binding_views(bindings@)),
        decreases params.len() - k,
    {
        if !unify_into(&params[k], &targets[k], generics, &mut bindings) {
            proof {
                lemma_unify_all_fails_on(
                    ps,
                    ts,
                    g,
                    unbound(g.len()),
                    (k + 1) as nat,
                    params.len() as nat,
                );
                lemma_unify_decides(g, ps, ts);
            }
            return None;
        }
        k = k + 1;
    }
    proof {
        lemma_unify_all_extends(ps, ts, g, unbound(g.len()), ps.len());
        assert(binding_views(bindings@).len() == bindings@.len());
    }
    Some(bindings)
}

/// Infers the type arguments of a call from the types of its arguments:
/// `params` are the declared parameter types, which may mention the
/// parameters of `generics`, and `arg_types` are the types of the values
/// that are passed. The answer is the one list of type arguments that turns
/// the parameter types into the argument types. Where there is none, or
/// more than one, the inference fails.
pub fn infer(generics: &Vec<Symbol>, params: &Vec<Type>, arg_types: &Vec<Type>) -> (r: Result<
    Vec<Type>,
    CompileError,
>)
    ensures
        match r {
            Ok(args) => determines(generics@, views(params@), views(arg_types@), views(args@)),
            Err(e) => !inferable(generics@, views(params@), views(arg_types@)) && e == (if params.len()
                != arg_types.len() {
                CompileError::ArityMismatch
            } else {
                CompileError::UnresolvedInference
            }),
        },
{
    let ghost g = generics@;
    let ghost ps = views(params@);
    let ghost ts = views(arg_types@);
    let bindings = match match_types(generics, params, arg_types) {
        Some(bindings) => bindings,
        None => {
            proof {
                lemma_unify_decides(g, ps, ts);
                assert forall|s: Seq<Ty>| !determines(g, ps, ts, s) by {
                    lemma_mismatch_has_no_solution(g, ps, ts, s);
                }
            }
            if params.len() != arg_types.len() {
                return Err(CompileError::ArityMismatch);
            }
            return Err(CompileError::UnresolvedInference);
        },
    };
    let mut args: Vec<Type> = Vec::new();
    let mut j: usize = 0;
    while j < bindings.len()
        invariant
            g == generics@,
            ps == views(params@),
            ts == views(arg_types@),
            ps.len() == ts.len(),
            bindings.len() == g.len(),
            Ty::unify_all(ps, ts, g, unbound(g.len()), ps.len()) == Some(binding_views(bindings@)),
            j <= bindings.len(),
            args.len() == j,
            forall|l: int| 0 <= l < j ==> binding_views(bindings@)[l] == Some(#[trigger] args@[l]@),
        decreases bindings.len() - j,
    {
        match &bindings[j] {
            Some(t) => {
                args.push(t.dup());
            },
            None => {
                proof {
                    assert(binding_views(bindings@)[j as int] is None);
                    assert forall|s: Seq<Ty>| !determines(g, ps, ts, s) by {
                        lemma_unbound_is_undetermined(g, ps, ts, j as int, s);
                    }
                }
                return Err(CompileError::UnresolvedInference);
            },
        }
        j = j + 1;
    }
    proof {
        assert forall|l: int| 0 <= l < views(args@).len() implies (#[trigger] binding_views(
            bindings@,
        )[l]) == Some(views(args@)[l]) by {
            assert(binding_views(bindings@)[l] == Some(args@[l]@));
        }
        lemma_bound_is_determined(g, ps, ts, views(args@));
    }
    Ok(args)
}

} // verus!
