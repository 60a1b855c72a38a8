//! The declaration context in Rocq: sorts, datatypes and functions.
use vstd::prelude::*;

use crate::certificate::{Certificate, DatatypeDecl, FunBody, FunDecl, Signature, SortDecl};
use crate::term::{render_sort_in, sort_in};
use crate::text::{decimal, decimal_text, pieces, same, NameSet};

verus! {

/// `S -> ` for each of the sorts.
pub open spec fn arrow_piece(sig: Signature, sorts: Seq<String>) -> spec_fn(int) -> Seq<char> {
    |i: int| sort_in(sig, sorts[i]@) + " -> "@
}

/// `S1 -> S2 -> ... -> `, one arrow after each sort.
pub open spec fn arrows(sig: Signature, sorts: Seq<String>) -> Seq<char> {
    pieces(sorts.len(), arrow_piece(sig, sorts))
}

fn render_arrows(sig: &Signature, sorts: &[String]) -> (r: String)
    ensures
        r@ == arrows(*sig, sorts@),
{
    let mut out: String = String::new();
    for i in 0..sorts.len()
        invariant
            out@ == pieces(i as nat, arrow_piece(*sig, sorts@)),
    {
        let mut piece: String = render_sort_in(sig, sorts[i].as_str());
        piece.append(" -> ");
        out.append(piece.as_str());
    }
    out
}

/// The type of a function with these parameter sorts and this result sort.
pub open spec fn fun_type(sig: Signature, params: Seq<String>, result: Seq<char>) -> Seq<char> {
    arrows(sig, params) + sort_in(sig, result)
}

/// Writes the type of a function: `["Int", "Int"]` and `"Bool"` give `Z -> Z -> Prop`.
pub fn fun_type_in(sig: &Signature, params: &[String], result: &str) -> (r: String)
    ensures
        r@ == fun_type(*sig, params@, result@),
{
    let mut ty: String = render_arrows(sig, params);
    ty.append(render_sort_in(sig, result).as_str());
    ty
}

/// A datatype of the signature has this name.
pub open spec fn is_datatype(sig: Signature, name: Seq<char>) -> bool {
    exists|k: int| 0 <= k < sig.datatypes@.len() && #[trigger] sig.datatypes@[k].sort_name@ == name
}

/// A sort that has to be declared: it is not built in, no datatype declares it, and the user maps
/// it to nothing that Rocq already has.
pub open spec fn is_user_sort(sig: Signature, s: SortDecl) -> bool {
    &&& !s.builtin
    &&& !is_datatype(sig, s.name@)
    &&& sig.rocq_name(s.name@) == s.name@
}

fn user_sort(sig: &Signature, s: &SortDecl) -> (r: bool)
    ensures
        r == is_user_sort(*sig, *s),
{
    if s.builtin {
        return false;
    }
    for k in 0..sig.datatypes.len()
        invariant
            forall|j: int| 0 <= j < k ==> #[trigger] sig.datatypes@[j].sort_name@ != s.name@,
    {
        if same(sig.datatypes[k].sort_name.as_str(), s.name.as_str()) {
            assert(sig.datatypes@[k as int].sort_name@ == s.name@);
            return false;
        }
    }
    same(sig.mapped_name(s.name.as_str()), s.name.as_str())
}

/// `Type -> `, whatever the position.
pub open spec fn kind_piece() -> spec_fn(int) -> Seq<char> {
    |i: int| "Type -> "@
}

/// An uninterpreted sort. SMT-LIB sorts are non-empty, which a Rocq parameter is not by itself; a
/// sort without arguments comes with an axiom that says so.
pub open spec fn rocq_sort(s: SortDecl) -> Seq<char> {
    let parameter = "Parameter "@ + s.name@ + " : "@ + pieces(s.arity as nat, kind_piece())
        + "Type.\n"@;
    if s.arity == 0 {
        parameter + "Axiom "@ + s.name@ + "_nonempty : inhabited "@ + s.name@ + ".\n"@
    } else {
        parameter
    }
}

fn render_sort(s: &SortDecl) -> (r: String)
    ensures
        r@ == rocq_sort(*s),
{
    let mut arrows: String = String::new();
    for i in 0..s.arity
        invariant
            arrows@ == pieces(i as nat, kind_piece()),
    {
        arrows.append("Type -> ");
    }
    let mut out: String = "Parameter ".to_owned();
    out.append(s.name.as_str());
    out.append(" : ");
    out.append(arrows.as_str());
    out.append("Type.\n");
    if s.arity == 0 {
        out.append("Axiom ");
        out.append(s.name.as_str());
        out.append("_nonempty : inhabited ");
        out.append(s.name.as_str());
        out.append(".\n");
    }
    out
}

/// The declaration of a sort of the signature, or nothing where it needs none.
pub open spec fn sort_piece(sig: Signature) -> spec_fn(int) -> Seq<char> {
    |i: int|
        if is_user_sort(sig, sig.sorts@[i]) {
            rocq_sort(sig.sorts@[i])
        } else {
            Seq::empty()
        }
}

/// Some sort of the signature has to be declared.
pub open spec fn has_user_sort(sig: Signature) -> bool {
    exists|i: int| 0 <= i < sig.sorts@.len() && is_user_sort(sig, #[trigger] sig.sorts@[i])
}

/// The uninterpreted sorts under their heading, or nothing where there are none.
pub open spec fn rocq_sorts(sig: Signature) -> Seq<char> {
    if has_user_sort(sig) {
        "(* Uninterpreted sorts (non-empty, per SMT-LIB) *)\n"@ + pieces(
            sig.sorts@.len(),
            sort_piece(sig),
        ) + "\n"@
    } else {
        Seq::empty()
    }
}

/// A sort that the signature has to declare has this name.
pub open spec fn declares_sort(sig: Signature, n: Seq<char>) -> bool {
    exists|i: int|
        0 <= i < sig.sorts@.len() && is_user_sort(sig, #[trigger] sig.sorts@[i])
            && sig.sorts@[i].name@ == n
}

fn render_sorts(sig: &Signature, declared: &mut NameSet) -> (r: String)
    ensures
        r@ == rocq_sorts(*sig),
        forall|n: Seq<char>| #[trigger]
            final(declared)@.contains(n) == (old(declared)@.contains(n) || declares_sort(*sig, n)),
{
    let mut list: String = String::new();
    let mut any: bool = false;
    for i in 0..sig.sorts.len()
        invariant
            list@ == pieces(i as nat, sort_piece(*sig)),
            any == (exists|j: int|
                0 <= j < i && is_user_sort(*sig, #[trigger] sig.sorts@[j])),
            forall|n: Seq<char>| #[trigger]
                declared@.contains(n) == (old(declared)@.contains(n) || exists|j: int|
                    0 <= j < i && is_user_sort(*sig, #[trigger] sig.sorts@[j])
                        && sig.sorts@[j].name@ == n),
    {
        let s: &SortDecl = &sig.sorts[i];
        if user_sort(sig, s) {
            list.append(render_sort(s).as_str());
            declared.insert(s.name.as_str());
            any = true;
        } else {
            assert(list@ =~= pieces(i as nat, sort_piece(*sig)) + Seq::<char>::empty());
        }
    }
    if any {
        let mut out: String = "(* Uninterpreted sorts (non-empty, per SMT-LIB) *)\n".to_owned();
        out.append(list.as_str());
        out.append("\n");
        out
    } else {
        String::new()
    }
}

/// ` (A : Type)` for each type parameter.
pub open spec fn type_param_piece(params: Seq<String>) -> spec_fn(int) -> Seq<char> {
    |i: int| " ("@ + params[i]@ + " : Type)"@
}

/// The number of arguments of the `i`-th constructor, zero where the signature does not say.
pub open spec fn constructor_arity(d: DatatypeDecl, i: int) -> nat {
    if i < d.arities@.len() {
        d.arities@[i] as nat
    } else {
        0
    }
}

/// The `i`-th constructor with the sorts of its arguments. Where the signature gives an arity
/// without the sorts, they are not guessed: a comment marks the constructor as incomplete.
pub open spec fn constructor_piece(sig: Signature, d: DatatypeDecl) -> spec_fn(int) -> Seq<char> {
    |i: int|
        {
            let ctor = d.constructors@[i]@;
            let arity = constructor_arity(d, i);
            if i < d.field_sorts@.len() && d.field_sorts@[i]@.len() == arity {
                "  | "@ + ctor + " : "@ + arrows(sig, d.field_sorts@[i]@) + d.sort_name@ + "\n"@
            } else if arity == 0 {
                "  | "@ + ctor + " : "@ + d.sort_name@ + "\n"@
            } else {
                "  (* INCOMPLETE: `"@ + ctor + "` takes "@ + decimal_text(arity)
                    + " argument(s) whose sorts the certificate did not carry *)\n"@ + "  | "@
                    + ctor + " : "@ + d.sort_name@ + "\n"@
            }
        }
}

/// The selectors of the `i`-th constructor can be stated: there is such a constructor, and every
/// selector has the sort of its field.
pub open spec fn has_selectors(d: DatatypeDecl, i: int) -> bool {
    &&& i < d.constructors@.len()
    &&& i < d.field_sorts@.len()
    &&& d.field_sorts@[i]@.len() == d.selectors@[i]@.len()
}

/// ` (x0 : S0) (x1 : S1) ...`, by position.
pub open spec fn field_binder_piece(sig: Signature, sorts: Seq<String>) -> spec_fn(
    int,
) -> Seq<char> {
    |k: int| " (x"@ + decimal_text(k as nat) + " : "@ + sort_in(sig, sorts[k]@) + ")"@
}

/// ` x0 x1 ...`, by position.
pub open spec fn field_piece() -> spec_fn(int) -> Seq<char> {
    |k: int| " x"@ + decimal_text(k as nat)
}

/// The `j`-th selector of the `i`-th constructor. Selectors are partial in SMT-LIB, so one is a
/// parameter with its characteristic equation and no total definition.
pub open spec fn selector_piece(sig: Signature, d: DatatypeDecl, i: int) -> spec_fn(
    int,
) -> Seq<char> {
    |j: int|
        {
            let ctor = d.constructors@[i]@;
            let sorts = d.field_sorts@[i]@;
            let sel = d.selectors@[i]@[j]@;
            "Parameter "@ + sel + " : "@ + d.sort_name@ + " -> "@ + sort_in(sig, sorts[j]@)
                + ".\n"@ + "Axiom "@ + sel + "_"@ + ctor + " : forall"@ + pieces(
                sorts.len(),
                field_binder_piece(sig, sorts),
            ) + ", "@ + sel + " ("@ + ctor + pieces(sorts.len(), field_piece()) + ") = x"@
                + decimal_text(j as nat) + ".\n"@
        }
}

/// The selectors of the `i`-th constructor, or nothing where they cannot be stated.
pub open spec fn selectors_piece(sig: Signature, d: DatatypeDecl) -> spec_fn(int) -> Seq<char> {
    |i: int|
        if has_selectors(d, i) {
            pieces(d.selectors@[i]@.len(), selector_piece(sig, d, i))
        } else {
            Seq::empty()
        }
}

/// A datatype as an inductive type, with its selectors.
pub open spec fn rocq_datatype(sig: Signature, d: DatatypeDecl) -> Seq<char> {
    "Inductive "@ + d.sort_name@ + pieces(d.params@.len(), type_param_piece(d.params@))
        + " : Type :=\n"@ + pieces(d.constructors@.len(), constructor_piece(sig, d)) + ".\n"@
        + pieces(d.selectors@.len(), selectors_piece(sig, d)) + "\n"@
}

/// The `i`-th constructor's selectors are stated and one of them has this name.
pub open spec fn declares_selector_of(d: DatatypeDecl, i: int, n: Seq<char>) -> bool {
    has_selectors(d, i) && exists|j: int|
        0 <= j < d.selectors@[i]@.len() && #[trigger] d.selectors@[i]@[j]@ == n
}

/// The datatype declares this name: its own, a constructor's or a stated selector's.
pub open spec fn datatype_declares(d: DatatypeDecl, n: Seq<char>) -> bool {
    ||| d.sort_name@ == n
    ||| exists|i: int| 0 <= i < d.constructors@.len() && #[trigger] d.constructors@[i]@ == n
    ||| exists|i: int| 0 <= i < d.selectors@.len() && #[trigger] declares_selector_of(d, i, n)
}

fn render_constructor(sig: &Signature, d: &DatatypeDecl, i: usize) -> (r: String)
    requires
        i < d.constructors@.len(),
    ensures
        r@ == constructor_piece(*sig, *d)(i as int),
{
    let ctor: &str = d.constructors[i].as_str();
    let arity: usize = if i < d.arities.len() {
        d.arities[i]
    } else {
        0
    };
    if i < d.field_sorts.len() && d.field_sorts[i].len() == arity {
        let mut out: String = "  | ".to_owned();
        out.append(ctor);
        out.append(" : ");
        out.append(render_arrows(sig, d.field_sorts[i].as_slice()).as_str());
        out.append(d.sort_name.as_str());
        out.append("\n");
        out
    } else if arity == 0 {
        let mut out: String = "  | ".to_owned();
        out.append(ctor);
        out.append(" : ");
        out.append(d.sort_name.as_str());
        out.append("\n");
        out
    } else {
        let mut out: String = "  (* INCOMPLETE: `".to_owned();
        out.append(ctor);
        out.append("` takes ");
        out.append(decimal(arity as u64).as_str());
        out.append(" argument(s) whose sorts the certificate did not carry *)\n");
        out.append("  | ");
        out.append(ctor);
        out.append(" : ");
        out.append(d.sort_name.as_str());
        out.append("\n");
        out
    }
}

fn render_selector(sig: &Signature, d: &DatatypeDecl, i: usize, j: usize) -> (r: String)
    requires
        i < d.selectors@.len(),
        has_selectors(*d, i as int),
        j < d.selectors@[i as int]@.len(),
    ensures
        r@ == selector_piece(*sig, *d, i as int)(j as int),
{
    let ctor: &str = d.constructors[i].as_str();
    let sorts: &Vec<String> = &d.field_sorts[i];
    let sel: &str = d.selectors[i][j].as_str();
    let mut binders: String = String::new();
    let mut args: String = String::new();
    for k in 0..sorts.len()
        invariant
            binders@ == pieces(k as nat, field_binder_piece(*sig, sorts@)),
            args@ == pieces(k as nat, field_piece()),
    {
        let number: String = decimal(k as u64);
        let mut binder: String = " (x".to_owned();
        binder.append(number.as_str());
        binder.append(" : ");
        binder.append(render_sort_in(sig, sorts[k].as_str()).as_str());
        binder.append(")");
        binders.append(binder.as_str());
        let mut arg: String = " x".to_owned();
        arg.append(number.as_str());
        args.append(arg.as_str());
    }
    let mut out: String = "Parameter ".to_owned();
    out.append(sel);
    out.append(" : ");
    out.append(d.sort_name.as_str());
    out.append(" -> ");
    out.append(render_sort_in(sig, sorts[j].as_str()).as_str());
    out.append(".\n");
    out.append("Axiom ");
    out.append(sel);
    out.append("_");
    out.append(ctor);
    out.append(" : forall");
    out.append(binders.as_str());
    out.append(", ");
    out.append(sel);
    out.append(" (");
    out.append(ctor);
    out.append(args.as_str());
    out.append(") = x");
    out.append(decimal(j as u64).as_str());
    out.append(".\n");
    out
}

fn render_selectors(
    sig: &Signature,
    d: &DatatypeDecl,
    i: usize,
    declared: &mut NameSet,
) -> (r: String)
    requires
        i < d.selectors@.len(),
    ensures
        r@ == selectors_piece(*sig, *d)(i as int),
        forall|n: Seq<char>| #[trigger]
            final(declared)@.contains(n) == (old(declared)@.contains(n) || declares_selector_of(
                *d,
                i as int,
                n,
            )),
{
    let mut out: String = String::new();
    if i < d.constructors.len() && i < d.field_sorts.len() && d.field_sorts[i].len()
        == d.selectors[i].len() {
        let count: usize = d.selectors[i].len();
        for j in 0..count
            invariant
                count == d.selectors@[i as int]@.len(),
                i < d.selectors@.len(),
                has_selectors(*d, i as int),
                out@ == pieces(j as nat, selector_piece(*sig, *d, i as int)),
                forall|n: Seq<char>| #[trigger]
                    declared@.contains(n) == (old(declared)@.contains(n) || exists|k: int|
                        0 <= k < j && #[trigger] d.selectors@[i as int]@[k]@ == n),
        {
            out.append(render_selector(sig, d, i, j).as_str());
            declared.insert(d.selectors[i][j].as_str());
        }
    }
    out
}

fn render_datatype(sig: &Signature, d: &DatatypeDecl, declared: &mut NameSet) -> (r: String)
    ensures
        r@ == rocq_datatype(*sig, *d),
        forall|n: Seq<char>| #[trigger]
            final(declared)@.contains(n) == (old(declared)@.contains(n) || datatype_declares(
                *d,
                n,
            )),
{
    let mut params: String = String::new();
    for i in 0..d.params.len()
        invariant
            params@ == pieces(i as nat, type_param_piece(d.params@)),
    {
        let mut param: String = " (".to_owned();
        param.append(d.params[i].as_str());
        param.append(" : Type)");
        params.append(param.as_str());
    }
    let mut constructors: String = String::new();
    for i in 0..d.constructors.len()
        invariant
            constructors@ == pieces(i as nat, constructor_piece(*sig, *d)),
            forall|n: Seq<char>| #[trigger]
                declared@.contains(n) == (old(declared)@.contains(n) || exists|k: int|
                    0 <= k < i && #[trigger] d.constructors@[k]@ == n),
    {
        constructors.append(render_constructor(sig, d, i).as_str());
        declared.insert(d.constructors[i].as_str());
    }
    declared.insert(d.sort_name.as_str());
    let ghost named = declared@;
    let mut selectors: String = String::new();
    for i in 0..d.selectors.len()
        invariant
            selectors@ == pieces(i as nat, selectors_piece(*sig, *d)),
            forall|n: Seq<char>| #[trigger]
                declared@.contains(n) == (named.contains(n) || exists|k: int|
                    0 <= k < i && #[trigger] declares_selector_of(*d, k, n)),
    {
        selectors.append(render_selectors(sig, d, i, declared).as_str());
    }
    let mut out: String = "Inductive ".to_owned();
    out.append(d.sort_name.as_str());
    out.append(params.as_str());
    out.append(" : Type :=\n");
    out.append(constructors.as_str());
    out.append(".\n");
    out.append(selectors.as_str());
    out.append("\n");
    out
}

/// ` (x : S)` for each named parameter of a defined function.
pub open spec fn binder_piece(sig: Signature, f: FunDecl) -> spec_fn(int) -> Seq<char> {
    |i: int| " ("@ + f.param_names@[i]@ + " : "@ + sort_in(sig, f.params@[i]@) + ")"@
}

/// The number of parameters that have both a name and a sort.
pub open spec fn binder_count(f: FunDecl) -> nat {
    if f.param_names@.len() <= f.params@.len() {
        f.param_names@.len()
    } else {
        f.params@.len()
    }
}

/// A comment for each operator of a function's body that Rocq does not have.
pub open spec fn operator_piece(name: Seq<char>, operators: Seq<String>) -> spec_fn(
    int,
) -> Seq<char> {
    |i: int| "(* UNMAPPED OPERATOR in `"@ + name + "`: `"@ + operators[i]@ + "` *)\n"@
}

/// A function or constant. One that the user maps to a name of Rocq's needs no declaration; a
/// defined one keeps its definition; one whose body cannot be read is declared without it, under a
/// comment that says so.
pub open spec fn rocq_fun(sig: Signature, f: FunDecl) -> Seq<char> {
    if sig.rocq_name(f.name@) != f.name@ {
        Seq::empty()
    } else {
        match f.body {
            None => "Parameter "@ + f.name@ + " : "@ + fun_type(sig, f.params@, f.result@)
                + ".\n"@,
            Some(FunBody::Unparseable) => "(* UNPARSEABLE define-fun body for `"@ + f.name@
                + "`; emitted as uninterpreted *)\n"@ + "Parameter "@ + f.name@ + " : "@
                + fun_type(sig, f.params@, f.result@) + ".\n"@,
            Some(FunBody::Rendered { text, unmapped }) => pieces(
                unmapped@.len(),
                operator_piece(f.name@, unmapped@),
            ) + "Definition "@ + f.name@ + pieces(binder_count(f), binder_piece(sig, f)) + " : "@
                + sort_in(sig, f.result@) + " := "@ + text@ + ".\n"@,
        }
    }
}

fn render_fun(sig: &Signature, f: &FunDecl) -> (r: String)
    ensures
        r@ == rocq_fun(*sig, *f),
{
    let name: &str = f.name.as_str();
    if !same(sig.mapped_name(name), name) {
        return String::new();
    }
    match &f.body {
        None => {
            let mut out: String = "Parameter ".to_owned();
            out.append(name);
            out.append(" : ");
            out.append(fun_type_in(sig, f.params.as_slice(), f.result.as_str()).as_str());
            out.append(".\n");
            out
        },
        Some(FunBody::Unparseable) => {
            let mut out: String = "(* UNPARSEABLE define-fun body for `".to_owned();
            out.append(name);
            out.append("`; emitted as uninterpreted *)\n");
            out.append("Parameter ");
            out.append(name);
            out.append(" : ");
            out.append(fun_type_in(sig, f.params.as_slice(), f.result.as_str()).as_str());
            out.append(".\n");
            out
        },
        Some(FunBody::Rendered { text, unmapped }) => {
            let mut out: String = String::new();
            for i in 0..unmapped.len()
                invariant
                    name@ == f.name@,
                    out@ == pieces(i as nat, operator_piece(f.name@, unmapped@)),
            {
                let mut note: String = "(* UNMAPPED OPERATOR in `".to_owned();
                note.append(name);
                note.append("`: `");
                note.append(unmapped[i].as_str());
                note.append("` *)\n");
                out.append(note.as_str());
            }
            let count: usize = if f.param_names.len() <= f.params.len() {
                f.param_names.len()
            } else {
                f.params.len()
            };
            let mut binders: String = String::new();
            for i in 0..count
                invariant
                    count == binder_count(*f),
                    binders@ == pieces(i as nat, binder_piece(*sig, *f)),
            {
                let mut binder: String = " (".to_owned();
                binder.append(f.param_names[i].as_str());
                binder.append(" : ");
                binder.append(render_sort_in(sig, f.params[i].as_str()).as_str());
                binder.append(")");
                binders.append(binder.as_str());
            }
            out.append("Definition ");
            out.append(name);
            out.append(binders.as_str());
            out.append(" : ");
            out.append(render_sort_in(sig, f.result.as_str()).as_str());
            out.append(" := ");
            out.append(text.as_str());
            out.append(".\n");
            out
        },
    }
}

/// The `i`-th datatype.
pub open spec fn datatype_piece(sig: Signature) -> spec_fn(int) -> Seq<char> {
    |i: int| rocq_datatype(sig, sig.datatypes@[i])
}

/// The `i`-th function.
pub open spec fn fun_piece(sig: Signature) -> spec_fn(int) -> Seq<char> {
    |i: int| rocq_fun(sig, sig.funs@[i])
}

/// The functions, or nothing where there are none.
pub open spec fn rocq_funs(sig: Signature) -> Seq<char> {
    if sig.funs@.len() == 0 {
        Seq::empty()
    } else {
        pieces(sig.funs@.len(), fun_piece(sig)) + "\n"@
    }
}

/// The declaration context: sorts, datatypes, functions.
pub open spec fn rocq_declarations(sig: Signature) -> Seq<char> {
    rocq_sorts(sig) + pieces(sig.datatypes@.len(), datatype_piece(sig)) + rocq_funs(sig)
}

/// The declaration context accounts for this name: a sort it declares, a name that a datatype
/// declares, or a function, mapped or not.
pub open spec fn declares(sig: Signature, n: Seq<char>) -> bool {
    ||| declares_sort(sig, n)
    ||| exists|i: int|
        0 <= i < sig.datatypes@.len() && datatype_declares(#[trigger] sig.datatypes@[i], n)
    ||| exists|i: int| 0 <= i < sig.funs@.len() && #[trigger] sig.funs@[i].name@ == n
}

fn datatype_has(d: &DatatypeDecl, name: &str) -> (r: bool)
    ensures
        r == datatype_declares(*d, name@),
{
    if same(d.sort_name.as_str(), name) {
        return true;
    }
    for i in 0..d.constructors.len()
        invariant
            forall|j: int| 0 <= j < i ==> #[trigger] d.constructors@[j]@ != name@,
    {
        if same(d.constructors[i].as_str(), name) {
            assert(d.constructors@[i as int]@ == name@);
            return true;
        }
    }
    for i in 0..d.selectors.len()
        invariant
            forall|j: int| 0 <= j < i ==> !#[trigger] declares_selector_of(*d, j, name@),
    {
        let stated: bool = i < d.constructors.len() && i < d.field_sorts.len()
            && d.field_sorts[i].len() == d.selectors[i].len();
        let selectors: &Vec<String> = &d.selectors[i];
        for j in 0..selectors.len()
            invariant
                i < d.selectors@.len(),
                *selectors == d.selectors@[i as int],
                stated == has_selectors(*d, i as int),
                stated ==> forall|k: int|
                    0 <= k < j ==> #[trigger] d.selectors@[i as int]@[k]@ != name@,
        {
            if stated && same(selectors[j].as_str(), name) {
                assert(d.selectors@[i as int]@[j as int]@ == name@);
                assert(declares_selector_of(*d, i as int, name@));
                return true;
            }
        }
    }
    false
}

/// Whether the declaration context accounts for a name.
pub fn is_declared(sig: &Signature, name: &str) -> (r: bool)
    ensures
        r == declares(*sig, name@),
{
    for i in 0..sig.sorts.len()
        invariant
            forall|j: int|
                0 <= j < i ==> !is_user_sort(*sig, #[trigger] sig.sorts@[j]) || sig.sorts@[j].name@
                    != name@,
    {
        if user_sort(sig, &sig.sorts[i]) && same(sig.sorts[i].name.as_str(), name) {
            assert(is_user_sort(*sig, sig.sorts@[i as int]));
            return true;
        }
    }
    for i in 0..sig.datatypes.len()
        invariant
            forall|j: int| 0 <= j < i ==> !datatype_declares(#[trigger] sig.datatypes@[j], name@),
    {
        if datatype_has(&sig.datatypes[i], name) {
            assert(datatype_declares(sig.datatypes@[i as int], name@));
            return true;
        }
    }
    for i in 0..sig.funs.len()
        invariant
            forall|j: int| 0 <= j < i ==> #[trigger] sig.funs@[j].name@ != name@,
    {
        if same(sig.funs[i].name.as_str(), name) {
            assert(sig.funs@[i as int].name@ == name@);
            return true;
        }
    }
    false
}

/// Appends the declaration context of a certificate to `out` and returns the names that it
/// accounts for.
pub fn emit_declarations(cert: &Certificate, out: &mut String) -> (r: NameSet)
    ensures
        final(out)@ == old(out)@ + rocq_declarations(cert.signature),
        forall|n: Seq<char>| #[trigger] r@.contains(n) == declares(cert.signature, n),
{
    let sig: &Signature = &cert.signature;
    let mut declared: NameSet = NameSet::new();
    if sig.is_empty() {
        assert(rocq_declarations(*sig) =~= Seq::<char>::empty());
        return declared;
    }
    let mut text: String = render_sorts(sig, &mut declared);
    let ghost sorts = declared@;
    let mut datatypes: String = String::new();
    for i in 0..sig.datatypes.len()
        invariant
            datatypes@ == pieces(i as nat, datatype_piece(*sig)),
            forall|n: Seq<char>| #[trigger]
                declared@.contains(n) == (sorts.contains(n) || exists|k: int|
                    0 <= k < i && datatype_declares(#[trigger] sig.datatypes@[k], n)),
    {
        datatypes.append(render_datatype(sig, &sig.datatypes[i], &mut declared).as_str());
    }
    text.append(datatypes.as_str());
    let ghost named = declared@;
    let mut funs: String = String::new();
    for i in 0..sig.funs.len()
        invariant
            funs@ == pieces(i as nat, fun_piece(*sig)),
            forall|n: Seq<char>| #[trigger]
                declared@.contains(n) == (named.contains(n) || exists|k: int|
                    0 <= k < i && #[trigger] sig.funs@[k].name@ == n),
    {
        funs.append(render_fun(sig, &sig.funs[i]).as_str());
        declared.insert(sig.funs[i].name.as_str());
    }
    if sig.funs.len() != 0 {
        funs.append("\n");
    }
    text.append(funs.as_str());
    out.append(text.as_str());
    declared
}

} // verus!
