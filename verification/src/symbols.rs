//! What a certificate mentions: its free variables, its constants, its numeric sorts.
use vstd::prelude::*;

use crate::certificate::{Certificate, Formula, Signature, Step};
use crate::declarations::{declares, is_declared};
use crate::term::{render_type, rocq_type, type_has_sort, type_mentions, Term, TermNode, Var};
use crate::text::{contains_word, has_word, is_numeral, numeral, same, texts};

verus! {

/// `seen`, and after it each of `entries` that was not there yet, at its first occurrence.
pub open spec fn absorb<A>(seen: Seq<A>, entries: Seq<A>) -> Seq<A>
    decreases entries.len(),
{
    if entries.len() == 0 {
        seen
    } else {
        let before = absorb(seen, entries.drop_last());
        if before.contains(entries.last()) {
            before
        } else {
            before.push(entries.last())
        }
    }
}

/// Absorbing in two parts is absorbing the whole.
pub proof fn lemma_absorb_concat<A>(seen: Seq<A>, first: Seq<A>, second: Seq<A>)
    ensures
        absorb(absorb(seen, first), second) == absorb(seen, first + second),
    decreases second.len(),
{
    if second.len() == 0 {
        assert(first + second =~= first);
    } else {
        lemma_absorb_concat(seen, first, second.drop_last());
        assert((first + second).drop_last() =~= first + second.drop_last());
    }
}

/// What is absorbed holds exactly what was seen or came, each entry once if it was so before.
pub proof fn lemma_absorb<A>(seen: Seq<A>, entries: Seq<A>)
    ensures
        forall|e: A| #[trigger]
            absorb(seen, entries).contains(e) == (seen.contains(e) || entries.contains(e)),
        seen.no_duplicates() ==> absorb(seen, entries).no_duplicates(),
    decreases entries.len(),
{
    if entries.len() > 0 {
        let init = entries.drop_last();
        let last = entries.last();
        lemma_absorb(seen, init);
        let before = absorb(seen, init);
        assert(entries =~= init.push(last));
        assert forall|e: A| entries.contains(e) == (init.contains(e) || e == last) by {
            if init.contains(e) {
                let k = choose|k: int| 0 <= k < init.len() && init[k] == e;
                assert(entries[k] == e);
            }
            if e == last {
                assert(entries[entries.len() - 1] == e);
            }
        }
        assert forall|e: A| before.push(last).contains(e) == (before.contains(e) || e == last) by {
            if before.contains(e) {
                let k = choose|k: int| 0 <= k < before.len() && before[k] == e;
                assert(before.push(last)[k] == e);
            }
            if e == last {
                assert(before.push(last)[before.len() as int] == e);
            }
        }
        assert forall|e: A| #[trigger]
            absorb(seen, entries).contains(e) == (seen.contains(e) || entries.contains(e)) by {
            assert(before.contains(e) == (seen.contains(e) || init.contains(e)));
        }
    }
}

/// A variable with its type in Rocq syntax.
pub open spec fn var_entry(sig: Signature, v: Var) -> (Seq<char>, Seq<char>) {
    (v.name@, rocq_type(sig, v.ty))
}

/// The entries of a list of variables.
pub open spec fn var_entries(sig: Signature, vars: Seq<Var>) -> Seq<(Seq<char>, Seq<char>)> {
    Seq::new(vars.len(), |i: int| var_entry(sig, vars[i]))
}

/// The free variables of some formulas, in order of occurrence.
pub open spec fn formulas_vars(sig: Signature, formulas: Seq<Formula>) -> Seq<
    (Seq<char>, Seq<char>),
>
    decreases formulas.len(),
{
    if formulas.len() == 0 {
        Seq::empty()
    } else {
        formulas_vars(sig, formulas.drop_last()) + var_entries(sig, formulas.last().free_vars@)
    }
}

/// The free variables of a step's hypotheses, then of its conclusion.
pub open spec fn step_vars(sig: Signature, step: Step) -> Seq<(Seq<char>, Seq<char>)> {
    formulas_vars(sig, step.result.hyps@) + var_entries(sig, step.result.concl.free_vars@)
}

/// The free variables of some steps, in order of occurrence.
pub open spec fn steps_vars(sig: Signature, steps: Seq<Step>) -> Seq<(Seq<char>, Seq<char>)>
    decreases steps.len(),
{
    if steps.len() == 0 {
        Seq::empty()
    } else {
        steps_vars(sig, steps.drop_last()) + step_vars(sig, steps.last())
    }
}

/// The free variables of a certificate, each at its first occurrence.
pub open spec fn free_vars(cert: Certificate) -> Seq<(Seq<char>, Seq<char>)> {
    absorb(Seq::empty(), steps_vars(cert.signature, cert.steps@))
}

/// The texts of a list of pairs of strings.
pub open spec fn pair_texts(pairs: Seq<(String, String)>) -> Seq<(Seq<char>, Seq<char>)> {
    Seq::new(pairs.len(), |i: int| (pairs[i].0@, pairs[i].1@))
}

fn note_var(sig: &Signature, seen: &mut Vec<(String, String)>, v: &Var)
    ensures
        pair_texts(final(seen)@) == (if pair_texts(old(seen)@).contains(var_entry(*sig, *v)) {
            pair_texts(old(seen)@)
        } else {
            pair_texts(old(seen)@).push(var_entry(*sig, *v))
        }),
{
    let ty: String = render_type(sig, &v.ty);
    let ghost before = pair_texts(seen@);
    let count: usize = seen.len();
    for i in 0..count
        invariant
            seen@ == old(seen)@,
            count == seen@.len(),
            before == pair_texts(seen@),
            ty@ == rocq_type(*sig, v.ty),
            forall|j: int| 0 <= j < i ==> before[j] != var_entry(*sig, *v),
    {
        if same(seen[i].0.as_str(), v.name.as_str()) && same(seen[i].1.as_str(), ty.as_str()) {
            assert(before[i as int] == var_entry(*sig, *v));
            return;
        }
    }
    seen.push((v.name.clone(), ty));
    assert(pair_texts(seen@) =~= before.push(var_entry(*sig, *v)));
}

fn note_vars(sig: &Signature, seen: &mut Vec<(String, String)>, vars: &Vec<Var>)
    ensures
        pair_texts(final(seen)@) == absorb(pair_texts(old(seen)@), var_entries(*sig, vars@)),
{
    for i in 0..vars.len()
        invariant
            pair_texts(seen@) == absorb(
                pair_texts(old(seen)@),
                var_entries(*sig, vars@).take(i as int),
            ),
    {
        let ghost entries = var_entries(*sig, vars@);
        assert(entries.take(i + 1).drop_last() =~= entries.take(i as int));
        note_var(sig, seen, &vars[i]);
    }
    assert(var_entries(*sig, vars@).take(vars@.len() as int) =~= var_entries(*sig, vars@));
}

/// The free variables of a certificate with their types in Rocq syntax, each at its first
/// occurrence.
pub fn collect_free_vars(cert: &Certificate) -> (r: Vec<(String, String)>)
    ensures
        pair_texts(r@) == free_vars(*cert),
{
    let sig: &Signature = &cert.signature;
    let mut seen: Vec<(String, String)> = Vec::new();
    let ghost none = Seq::<(Seq<char>, Seq<char>)>::empty();
    assert(pair_texts(seen@) =~= none);
    for i in 0..cert.steps.len()
        invariant
            *sig == cert.signature,
            none == Seq::<(Seq<char>, Seq<char>)>::empty(),
            pair_texts(seen@) == absorb(none, steps_vars(*sig, cert.steps@.take(i as int))),
    {
        let step: &Step = &cert.steps[i];
        let ghost done = steps_vars(*sig, cert.steps@.take(i as int));
        let ghost hyps = step.result.hyps@;
        proof {
            assert(hyps.take(0) =~= Seq::<Formula>::empty());
            assert(done + formulas_vars(*sig, hyps.take(0)) =~= done);
        }
        for j in 0..step.result.hyps.len()
            invariant
                hyps == step.result.hyps@,
                pair_texts(seen@) == absorb(none, done + formulas_vars(*sig, hyps.take(j as int))),
        {
            let ghost upto = formulas_vars(*sig, hyps.take(j as int));
            let ghost entries = var_entries(*sig, hyps[j as int].free_vars@);
            note_vars(sig, &mut seen, &step.result.hyps[j].free_vars);
            proof {
                assert(hyps.take(j + 1).drop_last() =~= hyps.take(j as int));
                lemma_absorb_concat(none, done + upto, entries);
                assert(done + (upto + entries) =~= (done + upto) + entries);
            }
        }
        note_vars(sig, &mut seen, &step.result.concl.free_vars);
        proof {
            let entries = var_entries(*sig, step.result.concl.free_vars@);
            assert(hyps.take(hyps.len() as int) =~= hyps);
            lemma_absorb_concat(none, done + formulas_vars(*sig, hyps), entries);
            let upto = formulas_vars(*sig, hyps);
            assert(done + (upto + entries) =~= (done + upto) + entries);
            assert(cert.steps@.take(i + 1).drop_last() =~= cert.steps@.take(i as int));
        }
    }
    assert(cert.steps@.take(cert.steps@.len() as int) =~= cert.steps@);
    seen
}

/// One of the strings is `n`.
pub open spec fn mentions(names: Seq<String>, n: Seq<char>) -> bool {
    exists|i: int| 0 <= i < names.len() && #[trigger] names[i]@ == n
}

fn mention(names: &Vec<String>, n: &str) -> (r: bool)
    ensures
        r == mentions(names@, n@),
{
    for i in 0..names.len()
        invariant
            forall|j: int| 0 <= j < i ==> #[trigger] names@[j]@ != n@,
    {
        if same(names[i].as_str(), n) {
            assert(names@[i as int]@ == n@);
            return true;
        }
    }
    false
}

/// One of these sort names holds the word `n`.
pub open spec fn sorts_mention(names: Seq<String>, n: Seq<char>) -> bool {
    exists|i: int| 0 <= i < names.len() && has_word((#[trigger] names[i])@, n)
}

fn sorts_hold(names: &Vec<String>, n: &str) -> (r: bool)
    ensures
        r == sorts_mention(names@, n@),
{
    for i in 0..names.len()
        invariant
            forall|j: int| 0 <= j < i ==> !has_word((#[trigger] names@[j])@, n@),
    {
        if contains_word(names[i].as_str(), n) {
            assert(has_word(names@[i as int]@, n@));
            return true;
        }
    }
    false
}

/// A declared sort that is not built in has this name. The built-in sorts are registered with
/// every certificate, so they say nothing about what it uses.
pub open spec fn sort_declared(sig: Signature, n: Seq<char>) -> bool {
    exists|i: int|
        0 <= i < sig.sorts@.len() && !(#[trigger] sig.sorts@[i]).builtin && has_word(
            sig.sorts@[i].name@,
            n,
        )
}

/// A declared function takes or returns this sort.
pub open spec fn sort_in_functions(sig: Signature, n: Seq<char>) -> bool {
    exists|i: int|
        0 <= i < sig.funs@.len() && (sorts_mention((#[trigger] sig.funs@[i]).params@, n)
            || has_word(sig.funs@[i].result@, n))
}

/// A field of this datatype's constructors has this sort.
pub open spec fn sort_in_fields(fields: Seq<Vec<String>>, n: Seq<char>) -> bool {
    exists|j: int| 0 <= j < fields.len() && sorts_mention((#[trigger] fields[j])@, n)
}

/// A field of a declared datatype has this sort.
pub open spec fn sort_in_datatypes(sig: Signature, n: Seq<char>) -> bool {
    exists|i: int|
        0 <= i < sig.datatypes@.len() && sort_in_fields(
            (#[trigger] sig.datatypes@[i]).field_sorts@,
            n,
        )
}

/// The declaration context uses this sort.
pub open spec fn uses_sort(sig: Signature, n: Seq<char>) -> bool {
    sort_declared(sig, n) || sort_in_functions(sig, n) || sort_in_datatypes(sig, n)
}

fn use_of_sort(sig: &Signature, n: &str) -> (r: bool)
    ensures
        r == uses_sort(*sig, n@),
{
    for i in 0..sig.sorts.len()
        invariant
            forall|j: int|
                0 <= j < i ==> (#[trigger] sig.sorts@[j]).builtin || !has_word(
                    sig.sorts@[j].name@,
                    n@,
                ),
    {
        if !sig.sorts[i].builtin && contains_word(sig.sorts[i].name.as_str(), n) {
            assert(!sig.sorts@[i as int].builtin);
            return true;
        }
    }
    for i in 0..sig.funs.len()
        invariant
            forall|j: int|
                0 <= j < i ==> !sorts_mention((#[trigger] sig.funs@[j]).params@, n@)
                    && !has_word(sig.funs@[j].result@, n@),
    {
        if sorts_hold(&sig.funs[i].params, n) || contains_word(sig.funs[i].result.as_str(), n) {
            assert(sorts_mention(sig.funs@[i as int].params@, n@) || has_word(
                sig.funs@[i as int].result@,
                n@,
            ));
            return true;
        }
    }
    for i in 0..sig.datatypes.len()
        invariant
            forall|k: int|
                0 <= k < i ==> !sort_in_fields((#[trigger] sig.datatypes@[k]).field_sorts@, n@),
    {
        let fields: &Vec<Vec<String>> = &sig.datatypes[i].field_sorts;
        for j in 0..fields.len()
            invariant
                i < sig.datatypes@.len(),
                *fields == sig.datatypes@[i as int].field_sorts,
                forall|k: int| 0 <= k < j ==> !sorts_mention((#[trigger] fields@[k])@, n@),
        {
            if sorts_hold(&fields[j], n) {
                assert(sorts_mention(fields@[j as int]@, n@));
                assert(sort_in_fields(sig.datatypes@[i as int].field_sorts@, n@));
                return true;
            }
        }
    }
    false
}

/// The type of one of the variables is built from this sort.
pub open spec fn vars_mention(vars: Seq<Var>, n: Seq<char>) -> bool {
    exists|k: int| 0 <= k < vars.len() && type_mentions((#[trigger] vars[k]).ty, n)
}

/// The type of a variable that is free in the step is built from this sort.
pub open spec fn step_mentions(step: Step, n: Seq<char>) -> bool {
    ||| exists|j: int|
        0 <= j < step.result.hyps@.len() && vars_mention(
            (#[trigger] step.result.hyps@[j]).free_vars@,
            n,
        )
    ||| vars_mention(step.result.concl.free_vars@, n)
}

/// The certificate uses this sort: its declarations do, or the type of a variable that is free in
/// a step does. A certificate without declarations has only its variables to go by.
pub open spec fn needs_sort(cert: Certificate, n: Seq<char>) -> bool {
    uses_sort(cert.signature, n) || exists|i: int|
        0 <= i < cert.steps@.len() && step_mentions(#[trigger] cert.steps@[i], n)
}

/// The type of some free variable is written with this name, and the declaration context does not
/// account for it.
pub open spec fn writes_undeclared(cert: Certificate, n: Seq<char>) -> bool {
    !declares(cert.signature, n) && exists|i: int|
        0 <= i < free_vars(cert).len() && has_word((#[trigger] free_vars(cert)[i]).1, n)
}

/// The file needs the theory of this sort, which Rocq has under this name: the certificate uses the
/// sort, or the file writes the name without declaring it.
pub open spec fn needs_theory(cert: Certificate, sort: Seq<char>, name: Seq<char>) -> bool {
    needs_sort(cert, sort) || writes_undeclared(cert, name)
}

/// The file needs the integers.
pub open spec fn needs_integers(cert: Certificate) -> bool {
    needs_theory(cert, "Int"@, "Z"@)
}

/// The file needs the reals.
pub open spec fn needs_reals(cert: Certificate) -> bool {
    needs_theory(cert, "Real"@, "R"@)
}

fn sort_of_vars(vars: &Vec<Var>, n: &str) -> (r: bool)
    ensures
        r == vars_mention(vars@, n@),
{
    for k in 0..vars.len()
        invariant
            forall|j: int| 0 <= j < k ==> !type_mentions((#[trigger] vars@[j]).ty, n@),
    {
        if type_has_sort(&vars[k].ty, n) {
            assert(type_mentions(vars@[k as int].ty, n@));
            return true;
        }
    }
    false
}

fn sort_of_step(step: &Step, n: &str) -> (r: bool)
    ensures
        r == step_mentions(*step, n@),
{
    let hyps: &Vec<Formula> = &step.result.hyps;
    for j in 0..hyps.len()
        invariant
            *hyps == step.result.hyps,
            forall|k: int| 0 <= k < j ==> !vars_mention((#[trigger] hyps@[k]).free_vars@, n@),
    {
        if sort_of_vars(&hyps[j].free_vars, n) {
            assert(vars_mention(step.result.hyps@[j as int].free_vars@, n@));
            return true;
        }
    }
    sort_of_vars(&step.result.concl.free_vars, n)
}

fn need_of_sort(cert: &Certificate, n: &str) -> (r: bool)
    ensures
        r == needs_sort(*cert, n@),
{
    if use_of_sort(&cert.signature, n) {
        return true;
    }
    for i in 0..cert.steps.len()
        invariant
            forall|j: int| 0 <= j < i ==> !step_mentions(#[trigger] cert.steps@[j], n@),
    {
        if sort_of_step(&cert.steps[i], n) {
            assert(step_mentions(cert.steps@[i as int], n@));
            return true;
        }
    }
    false
}

fn need_of_theory(cert: &Certificate, sort: &str, name: &str) -> (r: bool)
    ensures
        r == needs_theory(*cert, sort@, name@),
{
    if need_of_sort(cert, sort) {
        return true;
    }
    if is_declared(&cert.signature, name) {
        return false;
    }
    let vars: Vec<(String, String)> = collect_free_vars(cert);
    for i in 0..vars.len()
        invariant
            pair_texts(vars@) == free_vars(*cert),
            !declares(cert.signature, name@),
            forall|j: int| 0 <= j < i ==> !has_word((#[trigger] free_vars(*cert)[j]).1, name@),
    {
        assert(pair_texts(vars@)[i as int].1 == vars@[i as int].1@);
        if contains_word(vars[i].1.as_str(), name) {
            assert(has_word(free_vars(*cert)[i as int].1, name@));
            return true;
        }
    }
    assert(free_vars(*cert).len() == vars@.len());
    false
}

/// Which numeric theories the file needs: integers, reals.
pub fn numeric_imports(cert: &Certificate) -> (r: (bool, bool))
    ensures
        r.0 == needs_integers(*cert),
        r.1 == needs_reals(*cert),
{
    (need_of_theory(cert, "Int", "Z"), need_of_theory(cert, "Real", "R"))
}

/// A constant that the emitter knows how to write.
pub open spec fn is_known(n: Seq<char>) -> bool {
    ||| n == "true"@
    ||| n == "false"@
    ||| n == "not"@
    ||| n == "and"@
    ||| n == "or"@
    ||| n == "implies"@
    ||| n == "=>"@
    ||| n == "iff"@
    ||| n == "="@
    ||| n == "<"@
    ||| n == "<="@
    ||| n == ">"@
    ||| n == ">="@
    ||| n == "+"@
    ||| n == "-"@
    ||| n == "*"@
}

fn known(n: &str) -> (r: bool)
    ensures
        r == is_known(n@),
{
    same(n, "true") || same(n, "false") || same(n, "not") || same(n, "and") || same(n, "or")
        || same(n, "implies") || same(n, "=>") || same(n, "iff") || same(n, "=") || same(n, "<")
        || same(n, "<=") || same(n, ">") || same(n, ">=") || same(n, "+") || same(n, "-") || same(
        n,
        "*",
    )
}

/// A constant that reaches Rocq under its own name without being known to it: neither a known
/// constant, nor a numeric literal, which every target writes alike, nor a function that the user
/// maps to one of Rocq's.
pub open spec fn is_unmapped(sig: Signature, n: Seq<char>) -> bool {
    !is_numeral(n) && !is_known(n) && sig.written_name(n) == n
}

/// The occurrences of unmapped constants in a term, from left to right.
pub open spec fn term_unmapped(sig: Signature, t: Term) -> Seq<Seq<char>>
    decreases t,
{
    match t.node {
        TermNode::Var(_) => Seq::empty(),
        TermNode::Const(c) => if is_unmapped(sig, c@) {
            seq![c@]
        } else {
            Seq::empty()
        },
        TermNode::App(f, x) => term_unmapped(sig, *f) + term_unmapped(sig, *x),
        TermNode::Lam(_, body) => term_unmapped(sig, *body),
    }
}

/// The occurrences of unmapped constants in some formulas.
pub open spec fn formulas_unmapped(sig: Signature, formulas: Seq<Formula>) -> Seq<Seq<char>>
    decreases formulas.len(),
{
    if formulas.len() == 0 {
        Seq::empty()
    } else {
        formulas_unmapped(sig, formulas.drop_last()) + term_unmapped(sig, formulas.last().term)
    }
}

/// The occurrences of unmapped constants in a step's hypotheses, then in its conclusion.
pub open spec fn step_unmapped(sig: Signature, step: Step) -> Seq<Seq<char>> {
    formulas_unmapped(sig, step.result.hyps@) + term_unmapped(sig, step.result.concl.term)
}

/// The occurrences of unmapped constants in some steps.
pub open spec fn steps_unmapped(sig: Signature, steps: Seq<Step>) -> Seq<Seq<char>>
    decreases steps.len(),
{
    if steps.len() == 0 {
        Seq::empty()
    } else {
        steps_unmapped(sig, steps.drop_last()) + step_unmapped(sig, steps.last())
    }
}

/// The unmapped constants of a certificate, each at its first occurrence.
pub open spec fn unmapped(cert: Certificate) -> Seq<Seq<char>> {
    absorb(Seq::empty(), steps_unmapped(cert.signature, cert.steps@))
}

fn walk(sig: &Signature, t: &Term, out: &mut Vec<String>)
    ensures
        texts(final(out)@) == absorb(texts(old(out)@), term_unmapped(*sig, *t)),
    decreases *t,
{
    match &t.node {
        TermNode::Var(_) => {},
        TermNode::Const(c) => {
            let n: &str = c.as_str();
            let ghost before = texts(out@);
            if !numeral(n) && !known(n) && same(sig.name_in_statements(n), n) {
                let seen: bool = mention(out, n);
                proof {
                    assert(seq![n@].drop_last() =~= Seq::<Seq<char>>::empty());
                    assert(absorb(before, seq![n@].drop_last()) == before);
                    assert(mentions(out@, n@) == before.contains(n@)) by {
                        if mentions(out@, n@) {
                            let k = choose|k: int| 0 <= k < out@.len() && #[trigger] out@[k]@ == n@;
                            assert(before[k] == n@);
                        }
                        if before.contains(n@) {
                            let k = choose|k: int| 0 <= k < before.len() && before[k] == n@;
                            assert(out@[k]@ == n@);
                        }
                    }
                }
                if !seen {
                    out.push(n.to_owned());
                    assert(texts(out@) =~= before.push(n@));
                }
            }
        },
        TermNode::App(f, x) => {
            let ghost before = texts(out@);
            let fun: &Term = f;
            let arg: &Term = x;
            walk(sig, fun, out);
            walk(sig, arg, out);
            proof {
                lemma_absorb_concat(before, term_unmapped(*sig, *fun), term_unmapped(*sig, *arg));
            }
        },
        TermNode::Lam(_, body) => walk(sig, body, out),
    }
}

/// The constants of a certificate that the emitter passes on verbatim because it has no Rocq
/// notation for them, each at its first occurrence.
pub fn unmapped_constants(cert: &Certificate) -> (r: Vec<String>)
    ensures
        texts(r@) == unmapped(*cert),
{
    let sig: &Signature = &cert.signature;
    let mut out: Vec<String> = Vec::new();
    let ghost none = Seq::<Seq<char>>::empty();
    assert(texts(out@) =~= none);
    for i in 0..cert.steps.len()
        invariant
            *sig == cert.signature,
            none == Seq::<Seq<char>>::empty(),
            texts(out@) == absorb(none, steps_unmapped(*sig, cert.steps@.take(i as int))),
    {
        let step: &Step = &cert.steps[i];
        let ghost done = steps_unmapped(*sig, cert.steps@.take(i as int));
        let ghost hyps = step.result.hyps@;
        proof {
            assert(hyps.take(0) =~= Seq::<Formula>::empty());
            assert(done + formulas_unmapped(*sig, hyps.take(0)) =~= done);
        }
        for j in 0..step.result.hyps.len()
            invariant
                hyps == step.result.hyps@,
                texts(out@) == absorb(none, done + formulas_unmapped(*sig, hyps.take(j as int))),
        {
            let ghost upto = formulas_unmapped(*sig, hyps.take(j as int));
            let ghost names = term_unmapped(*sig, hyps[j as int].term);
            walk(sig, &step.result.hyps[j].term, &mut out);
            proof {
                assert(hyps.take(j + 1).drop_last() =~= hyps.take(j as int));
                lemma_absorb_concat(none, done + upto, names);
                assert(done + (upto + names) =~= (done + upto) + names);
            }
        }
        walk(sig, &step.result.concl.term, &mut out);
        proof {
            let names = term_unmapped(*sig, step.result.concl.term);
            assert(hyps.take(hyps.len() as int) =~= hyps);
            lemma_absorb_concat(none, done + formulas_unmapped(*sig, hyps), names);
            let upto = formulas_unmapped(*sig, hyps);
            assert(done + (upto + names) =~= (done + upto) + names);
            assert(cert.steps@.take(i + 1).drop_last() =~= cert.steps@.take(i as int));
        }
    }
    assert(cert.steps@.take(cert.steps@.len() as int) =~= cert.steps@);
    out
}

} // verus!
