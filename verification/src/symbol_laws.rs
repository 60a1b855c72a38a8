//! What a certificate mentions, over the fields of its steps and declarations.
use vstd::prelude::*;

use crate::certificate::{Certificate, Formula, Signature, Step};
use crate::declarations::declares;
use crate::laws::is_free_in;
use crate::symbols::{
    absorb, formulas_unmapped, formulas_vars, free_vars, is_unmapped, lemma_absorb, needs_integers,
    needs_reals, needs_sort, needs_theory, pair_texts, sort_in_datatypes, sort_in_fields,
    sort_in_functions, sorts_mention, step_mentions, step_unmapped, step_vars, steps_unmapped,
    steps_vars, term_unmapped, unmapped, uses_sort, var_entries, var_entry, vars_mention,
    writes_undeclared,
};
use crate::term::{rocq_type, type_mentions, Term, TermNode, Var};
use crate::text::{has_word, is_numeral};

verus! {

/// `e` stands at position `p` of the list and nowhere before.
pub open spec fn first_at<A>(list: Seq<A>, e: A, p: int) -> bool {
    &&& 0 <= p < list.len()
    &&& list[p] == e
    &&& forall|q: int| 0 <= q < p ==> list[q] != e
}

/// The list holds exactly the entries of `all` that satisfy the predicate, each once, in the order
/// in which they first occur there.
pub open spec fn lists_first_occurrences<A>(list: Seq<A>, all: Seq<A>, pred: spec_fn(A) -> bool) -> bool {
    &&& list.no_duplicates()
    &&& forall|e: A| #[trigger] list.contains(e) == (all.contains(e) && pred(e))
    &&& forall|i: int, j: int, p: int, q: int|
        0 <= i < j < list.len() && #[trigger] first_at(all, list[i], p) && #[trigger] first_at(
            all,
            list[j],
            q,
        ) ==> p < q
}

proof fn lemma_contains_push<A>(list: Seq<A>, last: A, e: A)
    ensures
        list.push(last).contains(e) == (list.contains(e) || e == last),
{
    if list.contains(e) {
        let k = choose|k: int| 0 <= k < list.len() && list[k] == e;
        assert(list.push(last)[k] == e);
    }
    if e == last {
        assert(list.push(last)[list.len() as int] == e);
    }
    if list.push(last).contains(e) {
        let k = choose|k: int| 0 <= k <= list.len() && list.push(last)[k] == e;
        if k < list.len() {
            assert(list[k] == e);
        }
    }
}

proof fn lemma_absorbed_in_order<A>(all: Seq<A>, pred: spec_fn(A) -> bool)
    ensures
        lists_first_occurrences(absorb(Seq::empty(), all.filter(pred)), all, pred),
    decreases all.len(),
{
    reveal(Seq::filter);
    let none = Seq::<A>::empty();
    let list = absorb(none, all.filter(pred));
    lemma_absorb(none, all.filter(pred));
    if all.len() > 0 {
        let init = all.drop_last();
        let last = all.last();
        lemma_absorbed_in_order(init, pred);
        let before = absorb(none, init.filter(pred));
        assert(all =~= init.push(last));
        assert forall|e: A| #[trigger] list.contains(e) == (all.contains(e) && pred(e)) by {
            lemma_contains_push(init, last, e);
            lemma_contains_push(before, last, e);
            lemma_contains_push(init.filter(pred), last, e);
            assert(before.contains(e) == (init.contains(e) && pred(e)));
            if pred(last) {
                assert(all.filter(pred) =~= init.filter(pred).push(last));
                assert(all.filter(pred).drop_last() =~= init.filter(pred));
                assert(all.filter(pred).last() == last);
            }
        }
        assert(pred(last) ==> all.filter(pred).drop_last() =~= init.filter(pred));
        assert(list == before || list == before.push(last));
        assert forall|i: int, j: int, p: int, q: int|
            0 <= i < j < list.len() && #[trigger] first_at(all, list[i], p) && #[trigger] first_at(
                all,
                list[j],
                q,
            ) implies p < q by {
            lemma_first_in_init(init, last, list[i], p);
            lemma_first_in_init(init, last, list[j], q);
            assert(list[i] == before[i]);
            assert(before.contains(before[i]));
            assert(init.contains(list[i]));
            assert(first_at(init, before[i], p));
            if j < before.len() {
                assert(list[j] == before[j]);
                assert(before.contains(before[j]));
                assert(init.contains(list[j]));
                assert(first_at(init, before[j], q));
            } else {
                assert(list[j] == last);
                assert(pred(last) && !before.contains(last));
                assert(!init.contains(last));
                assert(q == init.len()) by {
                    if q < init.len() {
                        assert(init[q] == last);
                    }
                }
            }
        }
    }
}

proof fn lemma_first_in_init<A>(init: Seq<A>, last: A, e: A, p: int)
    requires
        first_at(init.push(last), e, p),
    ensures
        init.contains(e) ==> first_at(init, e, p),
{
    if init.contains(e) {
        let k = choose|k: int| 0 <= k < init.len() && init[k] == e;
        assert(init.push(last)[k] == e);
        if p == init.len() {
            assert(init.push(last)[k] != e);
        }
        assert(init[p] == e);
        assert forall|q: int| 0 <= q < p implies init[q] != e by {
            assert(init.push(last)[q] != e);
        }
    }
}

/// A list of pairs of strings holds the texts of each pair, in order.
pub proof fn pairs_keep_their_order(pairs: Seq<(String, String)>)
    ensures
        pair_texts(pairs).len() == pairs.len(),
        forall|i: int|
            0 <= i < pairs.len() ==> (#[trigger] pair_texts(pairs)[i]).0 == pairs[i].0@
                && pair_texts(pairs)[i].1 == pairs[i].1@,
{
}

/// The variables of a list, each with its type as Rocq writes it.
pub open spec fn written_variables(sig: Signature, vars: Seq<Var>) -> Seq<(Seq<char>, Seq<char>)> {
    Seq::new(vars.len(), |k: int| (vars[k].name@, rocq_type(sig, vars[k].ty)))
}

/// The occurrences of free variables in a step: in its hypotheses in order, then in its conclusion.
pub open spec fn variables_of_step(sig: Signature, step: Step) -> Seq<(Seq<char>, Seq<char>)> {
    Seq::new(
        step.result.hyps@.len(),
        |j: int| written_variables(sig, step.result.hyps@[j].free_vars@),
    ).flatten() + written_variables(sig, step.result.concl.free_vars@)
}

/// The occurrences of free variables in the steps, in order.
pub open spec fn variable_occurrences(sig: Signature, steps: Seq<Step>) -> Seq<
    (Seq<char>, Seq<char>),
> {
    Seq::new(steps.len(), |i: int| variables_of_step(sig, steps[i])).flatten()
}

proof fn lemma_formula_variables(sig: Signature, hyps: Seq<Formula>)
    ensures
        formulas_vars(sig, hyps) == Seq::new(
            hyps.len(),
            |j: int| written_variables(sig, hyps[j].free_vars@),
        ).flatten(),
    decreases hyps.len(),
{
    let lists = Seq::new(hyps.len(), |j: int| written_variables(sig, hyps[j].free_vars@));
    if hyps.len() == 0 {
        assert(lists =~= Seq::empty());
    } else {
        let init = hyps.drop_last();
        lemma_formula_variables(sig, init);
        let before = Seq::new(init.len(), |j: int| written_variables(sig, init[j].free_vars@));
        let last = written_variables(sig, hyps.last().free_vars@);
        assert(lists =~= before.push(last));
        before.lemma_flatten_push(last);
        assert(var_entries(sig, hyps.last().free_vars@) =~= last);
    }
}

proof fn lemma_step_variables(sig: Signature, steps: Seq<Step>)
    ensures
        steps_vars(sig, steps) == variable_occurrences(sig, steps),
    decreases steps.len(),
{
    let lists = Seq::new(steps.len(), |i: int| variables_of_step(sig, steps[i]));
    if steps.len() == 0 {
        assert(lists =~= Seq::empty());
    } else {
        let init = steps.drop_last();
        let step = steps.last();
        lemma_step_variables(sig, init);
        let before = Seq::new(init.len(), |i: int| variables_of_step(sig, init[i]));
        let last = variables_of_step(sig, step);
        assert(lists =~= before.push(last));
        before.lemma_flatten_push(last);
        lemma_formula_variables(sig, step.result.hyps@);
        assert(var_entries(sig, step.result.concl.free_vars@) =~= written_variables(
            sig,
            step.result.concl.free_vars@,
        ));
        assert(step_vars(sig, step) == last);
    }
}

/// The free variables of a certificate are those of the hypotheses and conclusions of its steps, each
/// once, in the order of first occurrence.
pub proof fn free_variables_come_in_order_of_first_occurrence(cert: Certificate)
    ensures
        lists_first_occurrences(
            free_vars(cert),
            variable_occurrences(cert.signature, cert.steps@),
            |e: (Seq<char>, Seq<char>)| true,
        ),
{
    reveal(Seq::filter);
    let all = variable_occurrences(cert.signature, cert.steps@);
    let every = |e: (Seq<char>, Seq<char>)| true;
    lemma_step_variables(cert.signature, cert.steps@);
    lemma_filter_every(all, every);
    lemma_absorbed_in_order(all, every);
    assert(free_vars(cert) == absorb(Seq::empty(), all));
}

proof fn lemma_filter_every<A>(all: Seq<A>, every: spec_fn(A) -> bool)
    requires
        forall|e: A| #[trigger] every(e),
    ensures
        all.filter(every) == all,
    decreases all.len(),
{
    reveal(Seq::filter);
    if all.len() > 0 {
        lemma_filter_every(all.drop_last(), every);
        assert(every(all.last()));
        assert(all.drop_last().push(all.last()) =~= all);
    } else {
        assert(all.filter(every) =~= all);
    }
}

/// The constants of a term, from left to right.
pub open spec fn constants_of(t: Term) -> Seq<Seq<char>>
    decreases t,
{
    match t.node {
        TermNode::Var(_) => Seq::empty(),
        TermNode::Const(c) => seq![c@],
        TermNode::App(f, x) => constants_of(*f) + constants_of(*x),
        TermNode::Lam(_, body) => constants_of(*body),
    }
}

/// The constants of a step: in its hypotheses in order, then in its conclusion.
pub open spec fn constants_of_step(step: Step) -> Seq<Seq<char>> {
    Seq::new(
        step.result.hyps@.len(),
        |j: int| constants_of(step.result.hyps@[j].term),
    ).flatten() + constants_of(step.result.concl.term)
}

/// The constants of the steps, in order.
pub open spec fn constant_occurrences(steps: Seq<Step>) -> Seq<Seq<char>> {
    Seq::new(steps.len(), |i: int| constants_of_step(steps[i])).flatten()
}

/// The emitter has no notation for the constant and passes its name on: it is none of the logical
/// and arithmetical constants, no numeral, and no function that the user mapped.
pub open spec fn is_passed_on(sig: Signature, n: Seq<char>) -> bool {
    &&& n != "true"@ && n != "false"@ && n != "not"@ && n != "and"@ && n != "or"@
    &&& n != "implies"@ && n != "=>"@ && n != "iff"@ && n != "="@
    &&& n != "<"@ && n != "<="@ && n != ">"@ && n != ">="@
    &&& n != "+"@ && n != "-"@ && n != "*"@
    &&& !is_numeral(n)
    &&& sig.written_name(n) == n
}

/// The predicate of the constants that are passed on.
pub open spec fn passed_on(sig: Signature) -> spec_fn(Seq<char>) -> bool {
    |n: Seq<char>| is_passed_on(sig, n)
}

proof fn lemma_passed_on(sig: Signature, n: Seq<char>)
    ensures
        is_unmapped(sig, n) == is_passed_on(sig, n),
{
}

proof fn lemma_filter_concat(sig: Signature, a: Seq<Seq<char>>, b: Seq<Seq<char>>)
    ensures
        (a + b).filter(passed_on(sig)) == a.filter(passed_on(sig)) + b.filter(passed_on(sig)),
{
    Seq::filter_distributes_over_add(a, b, passed_on(sig));
}

proof fn lemma_term_constants(sig: Signature, t: &Term)
    ensures
        term_unmapped(sig, *t) == constants_of(*t).filter(passed_on(sig)),
    decreases *t,
{
    reveal(Seq::filter);
    let pred = passed_on(sig);
    match &t.node {
        TermNode::Var(_) => {
            assert(Seq::<Seq<char>>::empty().filter(pred) =~= Seq::<Seq<char>>::empty());
        },
        TermNode::Const(c) => {
            let none = Seq::<Seq<char>>::empty();
            assert(seq![c@].drop_last() =~= none);
            assert(none.filter(pred) =~= none);
            lemma_passed_on(sig, c@);
            assert(none.push(c@) =~= seq![c@]);
        },
        TermNode::App(f, x) => {
            let fun: &Term = &**f;
            let arg: &Term = &**x;
            lemma_term_constants(sig, fun);
            lemma_term_constants(sig, arg);
            lemma_filter_concat(sig, constants_of(*fun), constants_of(*arg));
        },
        TermNode::Lam(_, body) => lemma_term_constants(sig, &**body),
    }
}

proof fn lemma_formula_constants(sig: Signature, hyps: Seq<Formula>)
    ensures
        formulas_unmapped(sig, hyps) == Seq::new(
            hyps.len(),
            |j: int| constants_of(hyps[j].term),
        ).flatten().filter(passed_on(sig)),
    decreases hyps.len(),
{
    reveal(Seq::filter);
    let lists = Seq::new(hyps.len(), |j: int| constants_of(hyps[j].term));
    if hyps.len() == 0 {
        assert(lists =~= Seq::empty());
        assert(lists.flatten() =~= Seq::<Seq<char>>::empty());
        assert(lists.flatten().filter(passed_on(sig)) =~= Seq::<Seq<char>>::empty());
    } else {
        let init = hyps.drop_last();
        lemma_formula_constants(sig, init);
        let before = Seq::new(init.len(), |j: int| constants_of(init[j].term));
        let last = constants_of(hyps.last().term);
        assert(lists =~= before.push(last));
        before.lemma_flatten_push(last);
        lemma_filter_concat(sig, before.flatten(), last);
        lemma_term_constants(sig, &hyps.last().term);
    }
}

proof fn lemma_step_constants(sig: Signature, steps: Seq<Step>)
    ensures
        steps_unmapped(sig, steps) == constant_occurrences(steps).filter(passed_on(sig)),
    decreases steps.len(),
{
    reveal(Seq::filter);
    let lists = Seq::new(steps.len(), |i: int| constants_of_step(steps[i]));
    if steps.len() == 0 {
        assert(lists =~= Seq::empty());
        assert(lists.flatten() =~= Seq::<Seq<char>>::empty());
        assert(lists.flatten().filter(passed_on(sig)) =~= Seq::<Seq<char>>::empty());
    } else {
        let init = steps.drop_last();
        let step = steps.last();
        lemma_step_constants(sig, init);
        let before = Seq::new(init.len(), |i: int| constants_of_step(init[i]));
        let last = constants_of_step(step);
        assert(lists =~= before.push(last));
        before.lemma_flatten_push(last);
        lemma_filter_concat(sig, before.flatten(), last);
        let hyps = Seq::new(
            step.result.hyps@.len(),
            |j: int| constants_of(step.result.hyps@[j].term),
        ).flatten();
        lemma_formula_constants(sig, step.result.hyps@);
        lemma_term_constants(sig, &step.result.concl.term);
        lemma_filter_concat(sig, hyps, constants_of(step.result.concl.term));
        assert(step_unmapped(sig, step) == last.filter(passed_on(sig)));
    }
}

/// The unmapped constants are those of the hypotheses and conclusions of the steps that are passed
/// on, each once, in the order of first occurrence.
pub proof fn unmapped_constants_come_in_order_of_first_occurrence(cert: Certificate)
    ensures
        lists_first_occurrences(
            unmapped(cert),
            constant_occurrences(cert.steps@),
            passed_on(cert.signature),
        ),
{
    lemma_step_constants(cert.signature, cert.steps@);
    lemma_absorbed_in_order(constant_occurrences(cert.steps@), passed_on(cert.signature));
}

/// The declaration context uses a sort exactly if one of these names has it as a word: that of a
/// sort which is not built in, of a parameter or of the result of a function, of a field.
pub proof fn the_sorts_in_use_are_exact(sig: Signature, n: Seq<char>)
    ensures
        uses_sort(sig, n) <==> {
            ||| exists|i: int|
                0 <= i < sig.sorts@.len() && !(#[trigger] sig.sorts@[i]).builtin && has_word(
                    sig.sorts@[i].name@,
                    n,
                )
            ||| exists|i: int, j: int|
                0 <= i < sig.funs@.len() && 0 <= j < sig.funs@[i].params@.len() && has_word(
                    (#[trigger] sig.funs@[i].params@[j])@,
                    n,
                )
            ||| exists|i: int|
                0 <= i < sig.funs@.len() && has_word((#[trigger] sig.funs@[i]).result@, n)
            ||| exists|k: int, i: int, j: int|
                0 <= k < sig.datatypes@.len() && 0 <= i < sig.datatypes@[k].field_sorts@.len() && 0
                    <= j < sig.datatypes@[k].field_sorts@[i]@.len() && has_word(
                    (#[trigger] sig.datatypes@[k].field_sorts@[i]@[j])@,
                    n,
                )
        },
{
    if sort_in_functions(sig, n) {
        let i = choose|i: int|
            0 <= i < sig.funs@.len() && (sorts_mention((#[trigger] sig.funs@[i]).params@, n)
                || has_word(sig.funs@[i].result@, n));
        if sorts_mention(sig.funs@[i].params@, n) {
            let j = choose|j: int|
                0 <= j < sig.funs@[i].params@.len() && has_word(
                    (#[trigger] sig.funs@[i].params@[j])@,
                    n,
                );
            assert(has_word(sig.funs@[i].params@[j]@, n));
        }
    }
    if sort_in_datatypes(sig, n) {
        let k = choose|k: int|
            0 <= k < sig.datatypes@.len() && sort_in_fields(
                (#[trigger] sig.datatypes@[k]).field_sorts@,
                n,
            );
        let fields = sig.datatypes@[k].field_sorts@;
        let i = choose|i: int| 0 <= i < fields.len() && sorts_mention((#[trigger] fields[i])@, n);
        let j = choose|j: int| 0 <= j < fields[i]@.len() && has_word((#[trigger] fields[i]@[j])@, n);
        assert(has_word(sig.datatypes@[k].field_sorts@[i]@[j]@, n));
    }
    if exists|i: int, j: int|
        0 <= i < sig.funs@.len() && 0 <= j < sig.funs@[i].params@.len() && has_word(
            (#[trigger] sig.funs@[i].params@[j])@,
            n,
        ) {
        let (i, j) = choose|i: int, j: int|
            0 <= i < sig.funs@.len() && 0 <= j < sig.funs@[i].params@.len() && has_word(
                (#[trigger] sig.funs@[i].params@[j])@,
                n,
            );
        assert(sorts_mention(sig.funs@[i].params@, n));
        assert(sort_in_functions(sig, n));
    }
    if exists|i: int| 0 <= i < sig.funs@.len() && has_word((#[trigger] sig.funs@[i]).result@, n) {
        assert(sort_in_functions(sig, n));
    }
    if exists|k: int, i: int, j: int|
        0 <= k < sig.datatypes@.len() && 0 <= i < sig.datatypes@[k].field_sorts@.len() && 0 <= j
            < sig.datatypes@[k].field_sorts@[i]@.len() && has_word(
            (#[trigger] sig.datatypes@[k].field_sorts@[i]@[j])@,
            n,
        ) {
        let (k, i, j) = choose|k: int, i: int, j: int|
            0 <= k < sig.datatypes@.len() && 0 <= i < sig.datatypes@[k].field_sorts@.len() && 0 <= j
                < sig.datatypes@[k].field_sorts@[i]@.len() && has_word(
                (#[trigger] sig.datatypes@[k].field_sorts@[i]@[j])@,
                n,
            );
        let fields = sig.datatypes@[k].field_sorts@;
        assert(sorts_mention(fields[i]@, n));
        assert(sort_in_fields(fields, n));
    }
}

/// A theory is needed exactly if the declaration context uses its sort, the type of a variable that
/// is free in a step is built from it, or such a type is written with the theory's name while the
/// declaration context does not declare that name.
pub proof fn the_theories_in_use_are_exact(cert: Certificate)
    ensures
        needs_integers(cert) <==> is_in_use(cert, "Int"@, "Z"@),
        needs_reals(cert) <==> is_in_use(cert, "Real"@, "R"@),
{
    lemma_theory(cert, "Int"@, "Z"@);
    lemma_theory(cert, "Real"@, "R"@);
}

/// The sort is used, or the name written without being declared.
pub open spec fn is_in_use(cert: Certificate, sort: Seq<char>, name: Seq<char>) -> bool {
    ||| uses_sort(cert.signature, sort)
    ||| exists|i: int, v: Var|
        0 <= i < cert.steps@.len() && #[trigger] is_free_in(cert.steps@[i], v) && type_mentions(
            v.ty,
            sort,
        )
    ||| !declares(cert.signature, name) && exists|i: int, v: Var|
        0 <= i < cert.steps@.len() && #[trigger] is_free_in(cert.steps@[i], v) && has_word(
            rocq_type(cert.signature, v.ty),
            name,
        )
}

proof fn lemma_some_var(step: Step, n: Seq<char>) -> (v: Var)
    requires
        step_mentions(step, n),
    ensures
        is_free_in(step, v),
        type_mentions(v.ty, n),
{
    let concl = step.result.concl.free_vars@;
    if vars_mention(concl, n) {
        let k = choose|k: int| 0 <= k < concl.len() && type_mentions((#[trigger] concl[k]).ty, n);
        assert(step.result.concl.free_vars@[k] == concl[k]);
        concl[k]
    } else {
        let j = choose|j: int|
            0 <= j < step.result.hyps@.len() && vars_mention(
                (#[trigger] step.result.hyps@[j]).free_vars@,
                n,
            );
        let vars = step.result.hyps@[j].free_vars@;
        let k = choose|k: int| 0 <= k < vars.len() && type_mentions((#[trigger] vars[k]).ty, n);
        assert(step.result.hyps@[j].free_vars@[k] == vars[k]);
        vars[k]
    }
}

proof fn lemma_entry_var(sig: Signature, steps: Seq<Step>, e: (Seq<char>, Seq<char>)) -> (r: (
    int,
    Var,
))
    requires
        steps_vars(sig, steps).contains(e),
    ensures
        0 <= r.0 < steps.len(),
        is_free_in(steps[r.0], r.1),
        var_entry(sig, r.1) == e,
    decreases steps.len(),
{
    let init = steps_vars(sig, steps.drop_last());
    let step = steps.last();
    let all = steps_vars(sig, steps);
    let p = choose|p: int| 0 <= p < all.len() && all[p] == e;
    if p < init.len() {
        assert(init[p] == e);
        let r = lemma_entry_var(sig, steps.drop_last(), e);
        assert(steps.drop_last()[r.0] == steps[r.0]);
        r
    } else {
        let own = step_vars(sig, step);
        let q = p - init.len();
        assert(own[q] == e);
        let hyps = formulas_vars(sig, step.result.hyps@);
        if q < hyps.len() {
            assert(hyps[q] == e);
            let (j, k) = lemma_hyp_var(sig, step.result.hyps@, q);
            assert(step.result.hyps@[j].free_vars@[k] == step.result.hyps@[j].free_vars@[k]);
            (steps.len() - 1, step.result.hyps@[j].free_vars@[k])
        } else {
            let k = q - hyps.len();
            assert(var_entries(sig, step.result.concl.free_vars@)[k] == e);
            assert(step.result.concl.free_vars@[k] == step.result.concl.free_vars@[k]);
            (steps.len() - 1, step.result.concl.free_vars@[k])
        }
    }
}

proof fn lemma_hyp_var(sig: Signature, hyps: Seq<Formula>, q: int) -> (r: (int, int))
    requires
        0 <= q < formulas_vars(sig, hyps).len(),
    ensures
        0 <= r.0 < hyps.len(),
        0 <= r.1 < hyps[r.0].free_vars@.len(),
        var_entry(sig, hyps[r.0].free_vars@[r.1]) == formulas_vars(sig, hyps)[q],
    decreases hyps.len(),
{
    let init = formulas_vars(sig, hyps.drop_last());
    if q < init.len() {
        let r = lemma_hyp_var(sig, hyps.drop_last(), q);
        assert(hyps.drop_last()[r.0] == hyps[r.0]);
        r
    } else {
        (hyps.len() - 1, q - init.len())
    }
}

proof fn lemma_var_entry(sig: Signature, steps: Seq<Step>, i: int, v: Var)
    requires
        0 <= i < steps.len(),
        is_free_in(steps[i], v),
    ensures
        steps_vars(sig, steps).contains(var_entry(sig, v)),
{
    crate::laws::lemma_step_vars(sig, steps, i, v);
}

proof fn lemma_theory(cert: Certificate, sort: Seq<char>, name: Seq<char>)
    ensures
        needs_theory(cert, sort, name) <==> is_in_use(cert, sort, name),
{
    let sig = cert.signature;
    lemma_absorb(Seq::empty(), steps_vars(sig, cert.steps@));
    if needs_sort(cert, sort) && !uses_sort(sig, sort) {
        let i = choose|i: int|
            0 <= i < cert.steps@.len() && step_mentions(#[trigger] cert.steps@[i], sort);
        let v = lemma_some_var(cert.steps@[i], sort);
        assert(is_free_in(cert.steps@[i], v));
    }
    if exists|i: int, v: Var|
        0 <= i < cert.steps@.len() && #[trigger] is_free_in(cert.steps@[i], v) && type_mentions(
            v.ty,
            sort,
        ) {
        let (i, v) = choose|i: int, v: Var|
            0 <= i < cert.steps@.len() && #[trigger] is_free_in(cert.steps@[i], v) && type_mentions(
                v.ty,
                sort,
            );
        crate::laws::lemma_step_mentions(cert.steps@[i], v, sort);
    }
    if writes_undeclared(cert, name) {
        let k = choose|k: int|
            0 <= k < free_vars(cert).len() && has_word((#[trigger] free_vars(cert)[k]).1, name);
        assert(free_vars(cert).contains(free_vars(cert)[k]));
        let (i, v) = lemma_entry_var(sig, cert.steps@, free_vars(cert)[k]);
        assert(is_free_in(cert.steps@[i], v));
    }
    if !declares(sig, name) && exists|i: int, v: Var|
        0 <= i < cert.steps@.len() && #[trigger] is_free_in(cert.steps@[i], v) && has_word(
            rocq_type(sig, v.ty),
            name,
        ) {
        let (i, v) = choose|i: int, v: Var|
            0 <= i < cert.steps@.len() && #[trigger] is_free_in(cert.steps@[i], v) && has_word(
                rocq_type(sig, v.ty),
                name,
            );
        lemma_var_entry(sig, cert.steps@, i, v);
        assert(free_vars(cert).contains(var_entry(sig, v)));
        let k = choose|k: int|
            0 <= k < free_vars(cert).len() && free_vars(cert)[k] == var_entry(sig, v);
        assert(has_word(free_vars(cert)[k].1, name));
    }
}

} // verus!
