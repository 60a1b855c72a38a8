//! Types and terms of the certificate's logic, and how Rocq writes them.
//!
//! A term carries the readings that its kernel gives of it beside the shape it is built in: an
//! equation is an application of the equality constant, `p /\ q` one of a constant named `and`, but
//! which shapes count as one is the kernel's decision, so the decision is recorded in the value. A
//! type does the same for function types.
use std::sync::Arc;
use vstd::prelude::*;

use crate::certificate::{look_up, mapped, Signature};
use crate::text::{
    breaks, contains_word, has_word, is_break, lemma_word_length, same, texts, word_length,
};

verus! {

/// A type.
#[derive(Debug)]
pub enum Type {
    /// A function type. `applied` tells whether the kernel builds it as an application of the
    /// arrow constructor.
    Fun { dom: Arc<Type>, cod: Arc<Type>, applied: bool },
    /// Any other type constructor applied to an argument.
    App(Arc<Type>, Arc<Type>),
    /// Any other type, as the kernel prints it.
    Named(String),
}

/// A typed variable.
#[derive(Debug)]
pub struct Var {
    pub name: String,
    pub ty: Type,
}

/// How a term is built.
#[derive(Debug)]
pub enum TermNode {
    Var(Var),
    /// A constant, by its name.
    Const(String),
    App(Arc<Term>, Arc<Term>),
    Lam(Var, Arc<Term>),
}

/// An application chain: the name at its head and the arguments in order.
#[derive(Debug)]
pub struct Spine {
    pub head: String,
    pub args: Vec<Arc<Term>>,
}

/// A term: its shape, its two sides where it is an equation, and its head and arguments where it
/// is a named function applied.
#[derive(Debug)]
pub struct Term {
    pub equation: Option<(Arc<Term>, Arc<Term>)>,
    pub spine: Option<Spine>,
    pub node: TermNode,
}

/// The Rocq name of a built-in sort: propositions are `Prop`, integers `Z`, reals `R`. Every other
/// name stays.
pub open spec fn builtin_name(word: Seq<char>) -> Seq<char> {
    if word == "Bool"@ {
        "Prop"@
    } else if word == "Int"@ {
        "Z"@
    } else if word == "Real"@ {
        "R"@
    } else {
        word
    }
}

/// A word of a sort name in Rocq: what the table maps it to, or else the built-in name.
pub open spec fn word_in(table: Seq<(String, String)>, word: Seq<char>) -> Seq<char> {
    if mapped(table, word) == word {
        builtin_name(word)
    } else {
        mapped(table, word)
    }
}

/// A sort name in Rocq, word by word: an applied sort such as `Seq Int` spells its arguments out,
/// and each of them needs its own name.
pub open spec fn words_in(table: Seq<(String, String)>, s: Seq<char>) -> Seq<char>
    decreases s.len(),
{
    if word_length(s) >= s.len() {
        word_in(table, s)
    } else {
        let k = word_length(s) as int;
        word_in(table, s.take(k)) + seq![s[k]] + words_in(table, s.skip(k + 1))
    }
}

fn render_word(table: &Vec<(String, String)>, word: &str) -> (r: String)
    ensures
        r@ == word_in(table@, word@),
{
    let name: &str = look_up(table, word);
    if !same(name, word) {
        name.to_owned()
    } else if same(word, "Bool") {
        "Prop".to_owned()
    } else if same(word, "Int") {
        "Z".to_owned()
    } else if same(word, "Real") {
        "R".to_owned()
    } else {
        word.to_owned()
    }
}

fn render_words(table: &Vec<(String, String)>, s: &str) -> (r: String)
    ensures
        r@ == words_in(table@, s@),
{
    let total: usize = s.unicode_len();
    let mut out: String = String::new();
    let mut start: usize = 0;
    let mut at: usize = 0;
    proof {
        assert(s@.skip(0) =~= s@);
        assert(out@ + words_in(table@, s@) =~= words_in(table@, s@));
    }
    for c in it: s.chars()
        invariant
            it.seq() == s@,
            total == s@.len(),
            at == it.index(),
            start <= at <= total,
            forall|i: int| start <= i < at ==> !is_break(#[trigger] s@[i]),
            words_in(table@, s@) == out@ + words_in(table@, s@.skip(start as int)),
    {
        if breaks(c) {
            let ghost rest = s@.skip(start as int);
            let ghost before = out@;
            let word: String = s.substring_char(start, at).to_owned();
            let end: String = s.substring_char(at, at + 1).to_owned();
            proof {
                assert forall|i: int| 0 <= i < at - start implies !is_break(#[trigger] rest[i]) by {
                    assert(rest[i] == s@[start + i]);
                }
                lemma_word_length(rest, at - start);
                assert(rest.take(at - start) =~= word@);
                assert(rest.skip(at - start + 1) =~= s@.skip(at + 1));
                assert(end@ =~= seq![rest[at - start]]);
            }
            out.append(render_word(table, word.as_str()).as_str());
            out.append(end.as_str());
            proof {
                let written = word_in(table@, word@);
                let later = words_in(table@, s@.skip(at + 1));
                assert(before + (written + end@ + later) =~= before + written + end@ + later);
            }
            start = at + 1;
        }
        at = at + 1;
    }
    let ghost rest = s@.skip(start as int);
    let last: String = s.substring_char(start, total).to_owned();
    proof {
        assert forall|i: int| 0 <= i < total - start implies !is_break(#[trigger] rest[i]) by {
            assert(rest[i] == s@[start + i]);
        }
        lemma_word_length(rest, total - start);
        assert(last@ =~= rest);
    }
    out.append(render_word(table, last.as_str()).as_str());
    out
}

/// A sort name as Rocq writes it: each word of it by the built-in name, where it has one.
pub open spec fn rocq_sort_name(s: Seq<char>) -> Seq<char> {
    words_in(Seq::empty(), s)
}

/// Writes a sort name: `Int` gives `Z`, `Seq Int` gives `Seq Z`.
pub fn render_sort_name(s: &str) -> (r: String)
    ensures
        r@ == rocq_sort_name(s@),
{
    let table: Vec<(String, String)> = Vec::new();
    assert(table@ =~= Seq::<(String, String)>::empty());
    render_words(&table, s)
}

/// A sort name in Rocq: what the user mapped it to as a whole, or else word by word what the user
/// mapped the word to or the built-in name.
pub open spec fn sort_in(sig: Signature, s: Seq<char>) -> Seq<char> {
    if sig.rocq_name(s) == s {
        words_in(sig.rocq_names@, s)
    } else {
        sig.rocq_name(s)
    }
}

/// Writes a sort name as it stands under a signature.
pub fn render_sort_in(sig: &Signature, s: &str) -> (r: String)
    ensures
        r@ == sort_in(*sig, s@),
{
    let name: &str = sig.mapped_name(s);
    if same(name, s) {
        render_words(&sig.rocq_names, s)
    } else {
        name.to_owned()
    }
}

/// The type is built as an application.
pub open spec fn is_applied(ty: Type) -> bool {
    match ty {
        Type::Fun { applied, .. } => applied,
        Type::App(_, _) => true,
        Type::Named(_) => false,
    }
}

/// A type in Rocq syntax, under a signature that may map its sorts. A function type is
/// `(dom -> cod)`; an applied constructor stands before its argument, which is parenthesised where
/// it is built as an application itself.
pub open spec fn rocq_type(sig: Signature, ty: Type) -> Seq<char>
    decreases ty,
{
    match ty {
        Type::Fun { dom, cod, .. } => "("@ + rocq_type(sig, *dom) + " -> "@ + rocq_type(sig, *cod)
            + ")"@,
        Type::App(f, a) => if is_applied(*a) {
            rocq_type(sig, *f) + " ("@ + rocq_type(sig, *a) + ")"@
        } else {
            rocq_type(sig, *f) + " "@ + rocq_type(sig, *a)
        },
        Type::Named(s) => sort_in(sig, s@),
    }
}

/// Writes a type in Rocq syntax.
pub fn render_type(sig: &Signature, ty: &Type) -> (r: String)
    ensures
        r@ == rocq_type(*sig, *ty),
    decreases *ty,
{
    match ty {
        Type::Fun { dom, cod, .. } => {
            let mut s: String = "(".to_owned();
            s.append(render_type(sig, dom).as_str());
            s.append(" -> ");
            s.append(render_type(sig, cod).as_str());
            s.append(")");
            s
        },
        Type::App(f, a) => {
            let mut s: String = render_type(sig, f);
            let arg_ty: &Type = a;
            let applied: bool = match arg_ty {
                Type::Fun { applied, .. } => *applied,
                Type::App(_, _) => true,
                Type::Named(_) => false,
            };
            let arg: String = render_type(sig, arg_ty);
            if applied {
                s.append(" (");
                s.append(arg.as_str());
                s.append(")");
            } else {
                s.append(" ");
                s.append(arg.as_str());
            }
            s
        },
        Type::Named(name) => render_sort_in(sig, name.as_str()),
    }
}

/// The type is built from the sort of this name.
pub open spec fn type_mentions(ty: Type, n: Seq<char>) -> bool
    decreases ty,
{
    match ty {
        Type::Fun { dom, cod, .. } => type_mentions(*dom, n) || type_mentions(*cod, n),
        Type::App(f, a) => type_mentions(*f, n) || type_mentions(*a, n),
        Type::Named(s) => has_word(s@, n),
    }
}

/// Whether a type is built from the sort of this name.
pub fn type_has_sort(ty: &Type, n: &str) -> (r: bool)
    ensures
        r == type_mentions(*ty, n@),
    decreases *ty,
{
    match ty {
        Type::Fun { dom, cod, .. } => type_has_sort(dom, n) || type_has_sort(cod, n),
        Type::App(f, a) => type_has_sort(f, n) || type_has_sort(a, n),
        Type::Named(name) => contains_word(name.as_str(), n),
    }
}

/// The Rocq infix operator, with the blanks around it, for a binary head that has one.
pub open spec fn rocq_infix(head: Seq<char>) -> Option<Seq<char>> {
    if head == "<"@ {
        Some(" < "@)
    } else if head == "<="@ {
        Some(" <= "@)
    } else if head == ">"@ {
        Some(" > "@)
    } else if head == ">="@ {
        Some(" >= "@)
    } else if head == "+"@ {
        Some(" + "@)
    } else if head == "-"@ {
        Some(" - "@)
    } else if head == "*"@ {
        Some(" * "@)
    } else if head == "and"@ {
        Some(" /\\ "@)
    } else if head == "or"@ {
        Some(" \\/ "@)
    } else if head == "implies"@ || head == "=>"@ {
        Some(" -> "@)
    } else if head == "iff"@ {
        Some(" <-> "@)
    } else {
        None
    }
}

/// Looks up the Rocq infix operator of a binary head.
pub fn infix(head: &str) -> (r: Option<&'static str>)
    ensures
        match r {
            Some(op) => rocq_infix(head@) == Some(op@),
            None => rocq_infix(head@) is None,
        },
{
    if same(head, "<") {
        Some(" < ")
    } else if same(head, "<=") {
        Some(" <= ")
    } else if same(head, ">") {
        Some(" > ")
    } else if same(head, ">=") {
        Some(" >= ")
    } else if same(head, "+") {
        Some(" + ")
    } else if same(head, "-") {
        Some(" - ")
    } else if same(head, "*") {
        Some(" * ")
    } else if same(head, "and") {
        Some(" /\\ ")
    } else if same(head, "or") {
        Some(" \\/ ")
    } else if same(head, "implies") || same(head, "=>") {
        Some(" -> ")
    } else if same(head, "iff") {
        Some(" <-> ")
    } else {
        None
    }
}

/// An argument of an application is parenthesised where it is an application or an abstraction.
pub open spec fn is_compound(t: Term) -> bool {
    t.node is App || t.node is Lam
}

/// A term in Rocq syntax, under a signature and inside the binders of the names `bound`.
///
/// An equation is `(lhs = rhs)`. A head with Rocq notation takes it: a binary operator between its
/// two arguments, negation as `(~ p)`. Everything else follows the shape of the term: variables
/// and constants by name, a declared function that is not bound by the name that it has in Rocq,
/// `true` and `false` as the propositions `True` and `False`; application by juxtaposition;
/// abstraction as `(fun x : T => body)`.
pub open spec fn rocq_term_in(sig: Signature, bound: Seq<Seq<char>>, t: Term) -> Seq<char>
    decreases t,
{
    match t.equation {
        Some((lhs, rhs)) => "("@ + rocq_term_in(sig, bound, *lhs) + " = "@ + rocq_term_in(
            sig,
            bound,
            *rhs,
        ) + ")"@,
        None => match t.spine {
            Some(s) if s.args@.len() == 2 && rocq_infix(s.head@) is Some => "("@ + rocq_term_in(
                sig,
                bound,
                *s.args@[0],
            ) + rocq_infix(s.head@)->0 + rocq_term_in(sig, bound, *s.args@[1]) + ")"@,
            Some(s) if s.args@.len() == 1 && s.head@ == "not"@ => "(~ "@ + rocq_term_in(
                sig,
                bound,
                *s.args@[0],
            ) + ")"@,
            _ => match t.node {
                TermNode::Var(v) => rocq_variable(sig, bound, v.name@),
                TermNode::Const(c) => rocq_constant(sig, c@),
                TermNode::App(f, x) => if is_compound(*x) {
                    rocq_term_in(sig, bound, *f) + " ("@ + rocq_term_in(sig, bound, *x) + ")"@
                } else {
                    rocq_term_in(sig, bound, *f) + " "@ + rocq_term_in(sig, bound, *x)
                },
                TermNode::Lam(v, body) => "(fun "@ + v.name@ + " : "@ + rocq_type(sig, v.ty)
                    + " => "@ + rocq_term_in(sig, bound.push(v.name@), *body) + ")"@,
            },
        },
    }
}

/// An occurrence of a variable.
pub open spec fn rocq_variable(
    sig: Signature,
    bound: Seq<Seq<char>>,
    name: Seq<char>,
) -> Seq<char> {
    if bound.contains(name) {
        name
    } else {
        sig.written_name(name)
    }
}

/// An occurrence of a constant.
pub open spec fn rocq_constant(sig: Signature, name: Seq<char>) -> Seq<char> {
    if sig.written_name(name) != name {
        sig.written_name(name)
    } else if name == "true"@ {
        "True"@
    } else if name == "false"@ {
        "False"@
    } else {
        name
    }
}

/// A statement's term in Rocq syntax, under a signature.
pub open spec fn rocq_term(sig: Signature, t: Term) -> Seq<char> {
    rocq_term_in(sig, Seq::empty(), t)
}

/// Writes a statement's term in Rocq syntax.
pub fn render_term(sig: &Signature, t: &Term) -> (r: String)
    ensures
        r@ == rocq_term(*sig, *t),
{
    let mut bound: Vec<String> = Vec::new();
    assert(texts(bound@) =~= Seq::<Seq<char>>::empty());
    render_term_in(sig, &mut bound, t)
}

fn render_variable(sig: &Signature, bound: &Vec<String>, name: &str) -> (r: String)
    ensures
        r@ == rocq_variable(*sig, texts(bound@), name@),
{
    for i in 0..bound.len()
        invariant
            forall|j: int| 0 <= j < i ==> texts(bound@)[j] != name@,
    {
        if same(bound[i].as_str(), name) {
            assert(texts(bound@)[i as int] == name@);
            return name.to_owned();
        }
    }
    sig.name_in_statements(name).to_owned()
}

fn render_constant(sig: &Signature, name: &str) -> (r: String)
    ensures
        r@ == rocq_constant(*sig, name@),
{
    let written: &str = sig.name_in_statements(name);
    if !same(written, name) {
        written.to_owned()
    } else if same(name, "true") {
        "True".to_owned()
    } else if same(name, "false") {
        "False".to_owned()
    } else {
        name.to_owned()
    }
}

fn render_term_in(sig: &Signature, bound: &mut Vec<String>, t: &Term) -> (r: String)
    ensures
        r@ == rocq_term_in(*sig, texts(old(bound)@), *t),
        final(bound)@ == old(bound)@,
    decreases *t,
{
    if let Some((lhs, rhs)) = &t.equation {
        let mut s: String = "(".to_owned();
        s.append(render_term_in(sig, bound, lhs).as_str());
        s.append(" = ");
        s.append(render_term_in(sig, bound, rhs).as_str());
        s.append(")");
        return s;
    }
    if let Some(spine) = &t.spine {
        if spine.args.len() == 2 {
            if let Some(op) = infix(spine.head.as_str()) {
                let mut s: String = "(".to_owned();
                s.append(render_term_in(sig, bound, &spine.args[0]).as_str());
                s.append(op);
                s.append(render_term_in(sig, bound, &spine.args[1]).as_str());
                s.append(")");
                return s;
            }
        }
        if spine.args.len() == 1 && same(spine.head.as_str(), "not") {
            let mut s: String = "(~ ".to_owned();
            s.append(render_term_in(sig, bound, &spine.args[0]).as_str());
            s.append(")");
            return s;
        }
    }
    match &t.node {
        TermNode::Var(v) => render_variable(sig, bound, v.name.as_str()),
        TermNode::Const(c) => render_constant(sig, c.as_str()),
        TermNode::App(f, x) => {
            let mut s: String = render_term_in(sig, bound, f);
            let arg: String = render_term_in(sig, bound, x);
            let compound: bool = match &x.node {
                TermNode::App(_, _) => true,
                TermNode::Lam(_, _) => true,
                _ => false,
            };
            if compound {
                s.append(" (");
                s.append(arg.as_str());
                s.append(")");
            } else {
                s.append(" ");
                s.append(arg.as_str());
            }
            s
        },
        TermNode::Lam(v, body) => {
            let ghost outside = bound@;
            let mut s: String = "(fun ".to_owned();
            s.append(v.name.as_str());
            s.append(" : ");
            s.append(render_type(sig, &v.ty).as_str());
            s.append(" => ");
            bound.push(v.name.clone());
            assert(texts(bound@) =~= texts(outside).push(v.name@));
            s.append(render_term_in(sig, bound, body).as_str());
            let _ = bound.pop();
            assert(bound@ =~= outside);
            s.append(")");
            s
        },
    }
}

} // verus!
