//! How the declaration context is written, over the fields of the declarations.
use vstd::prelude::*;

use crate::certificate::{Certificate, DatatypeDecl, FunBody, FunDecl, Signature, SortDecl};
use crate::declarations::{
    arrow_piece, binder_count, binder_piece, constructor_piece, datatype_piece, declares,
    field_binder_piece, field_piece, fun_piece, fun_type, kind_piece, operator_piece,
    rocq_datatype, rocq_declarations, rocq_fun, rocq_funs, rocq_sort, rocq_sorts, selector_piece,
    selectors_piece, sort_piece, type_param_piece,
};
use crate::document::{rocq_file, ClassicalModuleFamily};
use crate::laws::every_selector_is_declared;
use crate::term::sort_in;
use crate::text::{decimal_text, occurs};
use crate::text_laws::pieces_are_joined_in_order;

verus! {

/// An uninterpreted sort is a parameter whose kind has one arrow per argument. One without arguments
/// comes with the axiom that it is not empty.
pub proof fn a_sort_is_a_parameter_of_its_arity(s: SortDecl) -> (kinds: Seq<Seq<char>>)
    ensures
        kinds.len() == s.arity,
        forall|i: int| 0 <= i < kinds.len() ==> #[trigger] kinds[i] == "Type -> "@,
        s.arity != 0 ==> rocq_sort(s) == "Parameter "@ + s.name@ + " : "@ + kinds.flatten()
            + "Type.\n"@,
        s.arity == 0 ==> rocq_sort(s) == "Parameter "@ + s.name@ + " : "@ + kinds.flatten()
            + "Type.\n"@ + "Axiom "@ + s.name@ + "_nonempty : inhabited "@ + s.name@ + ".\n"@,
{
    pieces_are_joined_in_order(s.arity as nat, kind_piece())
}

/// The sort has to be declared: Rocq does not have it, no datatype is it, and the user did not map
/// it.
pub open spec fn must_be_declared(sig: Signature, s: SortDecl) -> bool {
    &&& !s.builtin
    &&& forall|k: int|
        0 <= k < sig.datatypes@.len() ==> (#[trigger] sig.datatypes@[k]).sort_name@ != s.name@
    &&& sig.rocq_name(s.name@) == s.name@
}

proof fn lemma_user_sort(sig: Signature, s: SortDecl)
    ensures
        crate::declarations::is_user_sort(sig, s) == must_be_declared(sig, s),
{
    if crate::declarations::is_datatype(sig, s.name@) {
        let k = choose|k: int|
            0 <= k < sig.datatypes@.len() && #[trigger] sig.datatypes@[k].sort_name@ == s.name@;
        assert(sig.datatypes@[k].sort_name@ == s.name@);
    } else if !must_be_declared(sig, s) && !s.builtin && sig.rocq_name(s.name@) == s.name@ {
        let k = choose|k: int|
            0 <= k < sig.datatypes@.len() && (#[trigger] sig.datatypes@[k]).sort_name@ == s.name@;
        assert(crate::declarations::is_datatype(sig, s.name@));
    }
}

/// The sorts that have to be declared are declared in order under one heading, each once; without
/// such a sort nothing is written.
pub proof fn the_sorts_are_declared_once_in_order(sig: Signature) -> (parts: Seq<Seq<char>>)
    ensures
        parts.len() == sig.sorts@.len(),
        forall|i: int|
            0 <= i < parts.len() ==> #[trigger] parts[i] == if must_be_declared(
                sig,
                sig.sorts@[i],
            ) {
                rocq_sort(sig.sorts@[i])
            } else {
                Seq::empty()
            },
        (exists|i: int| 0 <= i < sig.sorts@.len() && must_be_declared(sig, #[trigger] sig.sorts@[i]))
            ==> rocq_sorts(sig) == "(* Uninterpreted sorts (non-empty, per SMT-LIB) *)\n"@
            + parts.flatten() + "\n"@,
        (forall|i: int|
            0 <= i < sig.sorts@.len() ==> !must_be_declared(sig, #[trigger] sig.sorts@[i]))
            ==> rocq_sorts(sig) == Seq::<char>::empty(),
{
    let parts = pieces_are_joined_in_order(sig.sorts@.len(), sort_piece(sig));
    assert forall|i: int| 0 <= i < parts.len() implies #[trigger] parts[i] == if must_be_declared(
        sig,
        sig.sorts@[i],
    ) {
        rocq_sort(sig.sorts@[i])
    } else {
        Seq::empty()
    } by {
        lemma_user_sort(sig, sig.sorts@[i]);
    }
    if exists|i: int| 0 <= i < sig.sorts@.len() && must_be_declared(sig, #[trigger] sig.sorts@[i]) {
        let i = choose|i: int|
            0 <= i < sig.sorts@.len() && must_be_declared(sig, #[trigger] sig.sorts@[i]);
        lemma_user_sort(sig, sig.sorts@[i]);
        assert(crate::declarations::has_user_sort(sig));
    } else if crate::declarations::has_user_sort(sig) {
        let i = choose|i: int|
            0 <= i < sig.sorts@.len() && crate::declarations::is_user_sort(
                sig,
                #[trigger] sig.sorts@[i],
            );
        lemma_user_sort(sig, sig.sorts@[i]);
    }
    parts
}

/// The type of a function has an arrow behind the sort of each parameter, in order, and then the
/// sort of the result.
pub proof fn a_function_type_has_an_arrow_per_parameter(
    sig: Signature,
    params: Seq<String>,
    result: Seq<char>,
) -> (parts: Seq<Seq<char>>)
    ensures
        parts.len() == params.len(),
        forall|i: int|
            0 <= i < parts.len() ==> #[trigger] parts[i] == sort_in(sig, params[i]@) + " -> "@,
        fun_type(sig, params, result) == parts.flatten() + sort_in(sig, result),
{
    pieces_are_joined_in_order(params.len(), arrow_piece(sig, params))
}

/// The number of arguments that the declaration gives a constructor; none where it says nothing.
pub open spec fn arity_of(d: DatatypeDecl, i: int) -> int {
    if i < d.arities@.len() {
        d.arities@[i] as int
    } else {
        0
    }
}

/// The declaration gives the sorts of exactly the arguments that the constructor takes.
pub open spec fn has_field_sorts(d: DatatypeDecl, i: int) -> bool {
    i < d.field_sorts@.len() && d.field_sorts@[i]@.len() == arity_of(d, i)
}

/// A constructor takes its fields, an arrow behind the sort of each, to the datatype. One whose sorts
/// are missing is marked with the number of its arguments and not given made-up ones.
pub proof fn a_constructor_takes_its_fields(sig: Signature, d: DatatypeDecl, i: int) -> (fields:
    Seq<Seq<char>>)
    requires
        0 <= i < d.constructors@.len(),
    ensures
        has_field_sorts(d, i) ==> fields.len() == d.field_sorts@[i]@.len() && (forall|k: int|
            0 <= k < fields.len() ==> #[trigger] fields[k] == sort_in(sig, d.field_sorts@[i]@[k]@)
                + " -> "@) && constructor_piece(sig, d)(i) == "  | "@ + d.constructors@[i]@ + " : "@
            + fields.flatten() + d.sort_name@ + "\n"@,
        !has_field_sorts(d, i) && arity_of(d, i) == 0 ==> constructor_piece(sig, d)(i) == "  | "@
            + d.constructors@[i]@ + " : "@ + d.sort_name@ + "\n"@,
        !has_field_sorts(d, i) && arity_of(d, i) != 0 ==> constructor_piece(sig, d)(i)
            == "  (* INCOMPLETE: `"@ + d.constructors@[i]@ + "` takes "@ + decimal_text(
            arity_of(d, i) as nat,
        ) + " argument(s) whose sorts the certificate did not carry *)\n"@ + "  | "@
            + d.constructors@[i]@ + " : "@ + d.sort_name@ + "\n"@,
{
    let sorts = d.field_sorts@[i]@;
    pieces_are_joined_in_order(sorts.len(), arrow_piece(sig, sorts))
}

/// The selectors of a constructor are stated: the constructor is there, and each selector has the
/// sort of its field.
pub open spec fn are_stated(d: DatatypeDecl, i: int) -> bool {
    &&& 0 <= i < d.selectors@.len()
    &&& i < d.constructors@.len()
    &&& i < d.field_sorts@.len()
    &&& d.field_sorts@[i]@.len() == d.selectors@[i]@.len()
}

/// A selector is a parameter from the datatype to the sort of its field, and its equation says that
/// it gives back that field of the constructor, and no other.
pub proof fn a_selector_gives_back_its_field(sig: Signature, d: DatatypeDecl, i: int, j: int) -> (r: (
    Seq<Seq<char>>,
    Seq<Seq<char>>,
))
    requires
        are_stated(d, i),
        0 <= j < d.selectors@[i]@.len(),
    ensures
        r.0.len() == d.field_sorts@[i]@.len(),
        forall|k: int|
            0 <= k < r.0.len() ==> #[trigger] r.0[k] == " (x"@ + decimal_text(k as nat) + " : "@
                + sort_in(sig, d.field_sorts@[i]@[k]@) + ")"@,
        r.1.len() == d.field_sorts@[i]@.len(),
        forall|k: int|
            0 <= k < r.1.len() ==> #[trigger] r.1[k] == " x"@ + decimal_text(k as nat),
        ({
            let ctor = d.constructors@[i]@;
            let sel = d.selectors@[i]@[j]@;
            selector_piece(sig, d, i)(j) == "Parameter "@ + sel + " : "@ + d.sort_name@ + " -> "@
                + sort_in(sig, d.field_sorts@[i]@[j]@) + ".\n"@ + "Axiom "@ + sel + "_"@ + ctor
                + " : forall"@ + r.0.flatten() + ", "@ + sel + " ("@ + ctor + r.1.flatten()
                + ") = x"@ + decimal_text(j as nat) + ".\n"@
        }),
{
    let sorts = d.field_sorts@[i]@;
    let binders = pieces_are_joined_in_order(sorts.len(), field_binder_piece(sig, sorts));
    let fields = pieces_are_joined_in_order(sorts.len(), field_piece());
    (binders, fields)
}

/// The selectors of every constructor, the first included, are stated in order wherever their number
/// is that of the field sorts; elsewhere none is.
pub proof fn the_selectors_of_a_constructor_are_stated(sig: Signature, d: DatatypeDecl, i: int) -> (
    parts: Seq<Seq<char>>)
    requires
        0 <= i < d.selectors@.len(),
    ensures
        parts.len() == d.selectors@[i]@.len(),
        forall|j: int| 0 <= j < parts.len() ==> #[trigger] parts[j] == selector_piece(sig, d, i)(j),
        are_stated(d, i) ==> selectors_piece(sig, d)(i) == parts.flatten(),
        !are_stated(d, i) ==> selectors_piece(sig, d)(i) == Seq::<char>::empty(),
{
    pieces_are_joined_in_order(d.selectors@[i]@.len(), selector_piece(sig, d, i))
}

/// A datatype is an inductive type over its parameters, with all its constructors in order, and the
/// selectors of each behind it.
pub proof fn a_datatype_is_an_inductive_type(sig: Signature, d: DatatypeDecl) -> (r: (
    Seq<Seq<char>>,
    Seq<Seq<char>>,
    Seq<Seq<char>>,
))
    ensures
        r.0.len() == d.params@.len(),
        forall|i: int|
            0 <= i < r.0.len() ==> #[trigger] r.0[i] == " ("@ + d.params@[i]@ + " : Type)"@,
        r.1.len() == d.constructors@.len(),
        forall|i: int| 0 <= i < r.1.len() ==> #[trigger] r.1[i] == constructor_piece(sig, d)(i),
        r.2.len() == d.selectors@.len(),
        forall|i: int| 0 <= i < r.2.len() ==> #[trigger] r.2[i] == selectors_piece(sig, d)(i),
        rocq_datatype(sig, d) == "Inductive "@ + d.sort_name@ + r.0.flatten() + " : Type :=\n"@
            + r.1.flatten() + ".\n"@ + r.2.flatten() + "\n"@,
{
    let params = pieces_are_joined_in_order(d.params@.len(), type_param_piece(d.params@));
    let ctors = pieces_are_joined_in_order(d.constructors@.len(), constructor_piece(sig, d));
    let sels = pieces_are_joined_in_order(d.selectors@.len(), selectors_piece(sig, d));
    (params, ctors, sels)
}

/// For every datatype, every constructor and every selector of it, where the constructor has as many
/// field sorts as selectors: the file declares the selector from the datatype to the sort of its
/// field, its equation follows, and the declaration context accounts for its name.
pub proof fn every_selector_with_a_field_sort_reaches_the_file(
    cert: Certificate,
    families: Seq<ClassicalModuleFamily>,
    k: int,
    i: int,
    j: int,
) -> (r: (Seq<Seq<char>>, Seq<Seq<char>>))
    requires
        0 <= k < cert.signature.datatypes@.len(),
        0 <= i < cert.signature.datatypes@[k].selectors@.len(),
        i < cert.signature.datatypes@[k].constructors@.len(),
        i < cert.signature.datatypes@[k].field_sorts@.len(),
        cert.signature.datatypes@[k].field_sorts@[i]@.len()
            == cert.signature.datatypes@[k].selectors@[i]@.len(),
        0 <= j < cert.signature.datatypes@[k].selectors@[i]@.len(),
    ensures
        ({
            let sig = cert.signature;
            let d = sig.datatypes@[k];
            let ctor = d.constructors@[i]@;
            let sel = d.selectors@[i]@[j]@;
            &&& declares(sig, sel)
            &&& r.0.len() == d.field_sorts@[i]@.len()
            &&& forall|l: int|
                0 <= l < r.0.len() ==> #[trigger] r.0[l] == " (x"@ + decimal_text(l as nat) + " : "@
                    + sort_in(sig, d.field_sorts@[i]@[l]@) + ")"@
            &&& r.1.len() == d.field_sorts@[i]@.len()
            &&& forall|l: int|
                0 <= l < r.1.len() ==> #[trigger] r.1[l] == " x"@ + decimal_text(l as nat)
            &&& occurs(
                "Parameter "@ + sel + " : "@ + d.sort_name@ + " -> "@ + sort_in(
                    sig,
                    d.field_sorts@[i]@[j]@,
                ) + ".\n"@ + "Axiom "@ + sel + "_"@ + ctor + " : forall"@ + r.0.flatten() + ", "@
                    + sel + " ("@ + ctor + r.1.flatten() + ") = x"@ + decimal_text(j as nat)
                    + ".\n"@,
                rocq_file(cert, families),
            )
        }),
{
    let d = cert.signature.datatypes@[k];
    every_selector_is_declared(cert, families, k, i, j);
    let r = a_selector_gives_back_its_field(cert.signature, d, i, j);
    assert(d.selectors@[i]@[j]@ == d.selectors@[i]@[j]@);
    assert(crate::declarations::declares_selector_of(d, i, d.selectors@[i]@[j]@));
    assert(crate::declarations::datatype_declares(
        cert.signature.datatypes@[k],
        d.selectors@[i]@[j]@,
    ));
    r
}

/// A function that the user mapped is not declared. Any other is a parameter of its type, or keeps
/// its definition: a binder for each parameter that has both a name and a sort, in order, the sort of
/// the result and the body. What the emitter could not make out is said in a comment before it.
pub proof fn a_function_is_declared_or_defined(sig: Signature, f: FunDecl) -> (r: (
    Seq<Seq<char>>,
    Seq<Seq<char>>,
))
    ensures
        sig.rocq_name(f.name@) != f.name@ ==> rocq_fun(sig, f) == Seq::<char>::empty(),
        sig.rocq_name(f.name@) == f.name@ ==> match f.body {
            None => rocq_fun(sig, f) == "Parameter "@ + f.name@ + " : "@ + fun_type(
                sig,
                f.params@,
                f.result@,
            ) + ".\n"@,
            Some(FunBody::Unparseable) => rocq_fun(sig, f)
                == "(* UNPARSEABLE define-fun body for `"@ + f.name@
                + "`; emitted as uninterpreted *)\n"@ + "Parameter "@ + f.name@ + " : "@ + fun_type(
                sig,
                f.params@,
                f.result@,
            ) + ".\n"@,
            Some(FunBody::Rendered { text, unmapped }) => {
                &&& r.0.len() == unmapped@.len()
                &&& forall|i: int|
                    0 <= i < r.0.len() ==> #[trigger] r.0[i] == "(* UNMAPPED OPERATOR in `"@
                        + f.name@ + "`: `"@ + unmapped@[i]@ + "` *)\n"@
                &&& r.1.len() <= f.params@.len()
                &&& r.1.len() <= f.param_names@.len()
                &&& r.1.len() == f.params@.len() || r.1.len() == f.param_names@.len()
                &&& forall|i: int|
                    0 <= i < r.1.len() ==> #[trigger] r.1[i] == " ("@ + f.param_names@[i]@ + " : "@
                        + sort_in(sig, f.params@[i]@) + ")"@
                &&& rocq_fun(sig, f) == r.0.flatten() + "Definition "@ + f.name@ + r.1.flatten()
                    + " : "@ + sort_in(sig, f.result@) + " := "@ + text@ + ".\n"@
            },
        },
{
    let binders = pieces_are_joined_in_order(binder_count(f), binder_piece(sig, f));
    let notes = match f.body {
        Some(FunBody::Rendered { unmapped, .. }) => pieces_are_joined_in_order(
            unmapped@.len(),
            operator_piece(f.name@, unmapped@),
        ),
        _ => Seq::empty(),
    };
    (notes, binders)
}

/// The declaration context is the sorts, then the datatypes in order, then the functions in order
/// with a blank line behind them if there are any.
pub proof fn the_declarations_stand_in_order(sig: Signature) -> (r: (
    Seq<Seq<char>>,
    Seq<Seq<char>>,
))
    ensures
        r.0.len() == sig.datatypes@.len(),
        forall|i: int|
            0 <= i < r.0.len() ==> #[trigger] r.0[i] == rocq_datatype(sig, sig.datatypes@[i]),
        r.1.len() == sig.funs@.len(),
        forall|i: int| 0 <= i < r.1.len() ==> #[trigger] r.1[i] == rocq_fun(sig, sig.funs@[i]),
        sig.funs@.len() == 0 ==> rocq_declarations(sig) == rocq_sorts(sig) + r.0.flatten(),
        sig.funs@.len() > 0 ==> rocq_declarations(sig) == rocq_sorts(sig) + r.0.flatten() + (
        r.1.flatten() + "\n"@),
{
    let datatypes = pieces_are_joined_in_order(sig.datatypes@.len(), datatype_piece(sig));
    let funs = pieces_are_joined_in_order(sig.funs@.len(), fun_piece(sig));
    let text = rocq_sorts(sig) + datatypes.flatten();
    assert(text + Seq::<char>::empty() =~= text);
    assert(sig.funs@.len() == 0 ==> rocq_funs(sig) == Seq::<char>::empty());
    (datatypes, funs)
}

/// A signature declares nothing exactly if it has no sorts, no datatypes and no functions; then
/// nothing is written and no name accounted for.
pub proof fn an_empty_context_writes_nothing(sig: Signature, n: Seq<char>)
    ensures
        sig.declares_nothing() <==> sig.sorts@.len() == 0 && sig.datatypes@.len() == 0
            && sig.funs@.len() == 0,
        sig.declares_nothing() ==> rocq_declarations(sig) == Seq::<char>::empty(),
        sig.declares_nothing() ==> !declares(sig, n),
{
    if sig.declares_nothing() {
        assert(rocq_declarations(sig) =~= Seq::<char>::empty());
    }
}

/// The declaration context accounts for exactly these names: a sort that has to be declared, a
/// datatype, a constructor, a stated selector, a function.
pub proof fn the_declared_names_are_exact(sig: Signature, n: Seq<char>)
    ensures
        declares(sig, n) <==> {
            ||| exists|i: int|
                0 <= i < sig.sorts@.len() && must_be_declared(sig, #[trigger] sig.sorts@[i])
                    && sig.sorts@[i].name@ == n
            ||| exists|k: int| 0 <= k < sig.datatypes@.len() && has_name(
                #[trigger] sig.datatypes@[k],
                n,
            )
            ||| exists|i: int| 0 <= i < sig.funs@.len() && (#[trigger] sig.funs@[i]).name@ == n
        },
{
    if declares(sig, n) {
        if crate::declarations::declares_sort(sig, n) {
            let i = choose|i: int|
                0 <= i < sig.sorts@.len() && crate::declarations::is_user_sort(
                    sig,
                    #[trigger] sig.sorts@[i],
                ) && sig.sorts@[i].name@ == n;
            lemma_user_sort(sig, sig.sorts@[i]);
            assert(must_be_declared(sig, sig.sorts@[i]));
        } else if exists|k: int|
            0 <= k < sig.datatypes@.len() && crate::declarations::datatype_declares(
                #[trigger] sig.datatypes@[k],
                n,
            ) {
            let k = choose|k: int|
                0 <= k < sig.datatypes@.len() && crate::declarations::datatype_declares(
                    #[trigger] sig.datatypes@[k],
                    n,
                );
            lemma_datatype_names(sig.datatypes@[k], n);
            assert(has_name(sig.datatypes@[k], n));
        } else {
            let i = choose|i: int| 0 <= i < sig.funs@.len() && #[trigger] sig.funs@[i].name@ == n;
            assert(sig.funs@[i].name@ == n);
        }
    }
    if exists|i: int|
        0 <= i < sig.sorts@.len() && must_be_declared(sig, #[trigger] sig.sorts@[i])
            && sig.sorts@[i].name@ == n {
        let i = choose|i: int|
            0 <= i < sig.sorts@.len() && must_be_declared(sig, #[trigger] sig.sorts@[i])
                && sig.sorts@[i].name@ == n;
        lemma_user_sort(sig, sig.sorts@[i]);
        assert(crate::declarations::declares_sort(sig, n));
    }
    if exists|k: int| 0 <= k < sig.datatypes@.len() && has_name(#[trigger] sig.datatypes@[k], n) {
        let k = choose|k: int|
            0 <= k < sig.datatypes@.len() && has_name(#[trigger] sig.datatypes@[k], n);
        lemma_datatype_names(sig.datatypes@[k], n);
        assert(crate::declarations::datatype_declares(sig.datatypes@[k], n));
    }
    if exists|i: int| 0 <= i < sig.funs@.len() && (#[trigger] sig.funs@[i]).name@ == n {
        let i = choose|i: int| 0 <= i < sig.funs@.len() && (#[trigger] sig.funs@[i]).name@ == n;
        assert(sig.funs@[i].name@ == n);
    }
}

/// The datatype has this name, or a constructor or a stated selector of it has.
pub open spec fn has_name(d: DatatypeDecl, n: Seq<char>) -> bool {
    ||| d.sort_name@ == n
    ||| exists|i: int| 0 <= i < d.constructors@.len() && (#[trigger] d.constructors@[i])@ == n
    ||| exists|i: int, j: int|
        are_stated(d, i) && 0 <= j < d.selectors@[i]@.len() && (#[trigger] d.selectors@[i]@[j])@
            == n
}

proof fn lemma_datatype_names(d: DatatypeDecl, n: Seq<char>)
    ensures
        crate::declarations::datatype_declares(d, n) == has_name(d, n),
{
    if exists|i: int|
        0 <= i < d.selectors@.len() && #[trigger] crate::declarations::declares_selector_of(
            d,
            i,
            n,
        ) {
        let i = choose|i: int|
            0 <= i < d.selectors@.len() && #[trigger] crate::declarations::declares_selector_of(
                d,
                i,
                n,
            );
        let j = choose|j: int|
            0 <= j < d.selectors@[i]@.len() && #[trigger] d.selectors@[i]@[j]@ == n;
        assert(are_stated(d, i) && d.selectors@[i]@[j]@ == n);
    }
    if exists|i: int, j: int|
        are_stated(d, i) && 0 <= j < d.selectors@[i]@.len() && (#[trigger] d.selectors@[i]@[j])@
            == n {
        let (i, j) = choose|i: int, j: int|
            are_stated(d, i) && 0 <= j < d.selectors@[i]@.len() && (#[trigger] d.selectors@[i]@[j])@
                == n;
        assert(d.selectors@[i]@[j]@ == n);
        assert(crate::declarations::declares_selector_of(d, i, n));
    }
    if exists|i: int| 0 <= i < d.constructors@.len() && #[trigger] d.constructors@[i]@ == n {
        let i = choose|i: int| 0 <= i < d.constructors@.len() && #[trigger] d.constructors@[i]@ == n;
        assert(d.constructors@[i]@ == n);
    }
    if exists|i: int| 0 <= i < d.constructors@.len() && (#[trigger] d.constructors@[i])@ == n {
        let i = choose|i: int|
            0 <= i < d.constructors@.len() && (#[trigger] d.constructors@[i])@ == n;
        assert(d.constructors@[i]@ == n);
    }
}

} // verus!
