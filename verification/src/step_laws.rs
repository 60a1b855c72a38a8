//! How steps and their oracles are written, over the fields of the certificate.
use vstd::prelude::*;

use crate::certificate::{Certificate, Signature, Step, StepBody, StepId};
use crate::steps::{
    argument_piece, conclusion_of, hypothesis_texts, implication, oracle_piece, parent_piece,
    premises, proof_of, rocq_oracle, rocq_oracle_name, rocq_oracles, rocq_step, shown_in_comment,
    step_name,
};
use crate::term::rocq_term;
use crate::text_laws::{a_number_reads_back, pieces_are_joined_in_order, value_of};

verus! {

/// The name of a step is the letter `s` and its number in decimal, which reads back.
pub proof fn a_step_name_reads_back(id: StepId) -> (digits: Seq<char>)
    ensures
        step_name(id) == "s"@ + digits,
        value_of(digits) == id.0,
        digits.len() >= 1,
        forall|i: int| 0 <= i < digits.len() ==> '0' <= #[trigger] digits[i] <= '9',
        digits.len() > 1 ==> digits[0] != '0',
{
    a_number_reads_back(id.0 as nat);
    crate::text::decimal_text(id.0 as nat)
}

/// The name of an oracle is the name of its step behind a prefix, which tells an assumption of the
/// user's from everything else.
pub proof fn an_oracle_is_named_after_its_step(step: Step)
    ensures
        step.body is Assumed ==> rocq_oracle_name(step) == "adsmt_assumed_"@ + step_name(step.id),
        !(step.body is Assumed) ==> rocq_oracle_name(step) == "adsmt_"@ + step_name(step.id),
{
    reveal_strlit("s");
    reveal_strlit("adsmt_");
    reveal_strlit("adsmt_s");
    reveal_strlit("adsmt_assumed_");
    reveal_strlit("adsmt_assumed_s");
    let digits = crate::text::decimal_text(step.id.0 as nat);
    assert("adsmt_s"@ + digits =~= "adsmt_"@ + ("s"@ + digits));
    assert("adsmt_assumed_s"@ + digits =~= "adsmt_assumed_"@ + ("s"@ + digits));
}

/// A theorem with its proof, on two lines.
pub open spec fn theorem_lines(name: Seq<char>, prop: Seq<char>, proof_script: Seq<char>) -> Seq<char> {
    "Theorem "@ + name + " : "@ + prop + ".\nProof. "@ + proof_script + " Qed."@
}

/// An assumption is a hypothesis under the step's name.
pub proof fn an_assumption_is_a_hypothesis(cert: Certificate, step: Step)
    requires
        step.body is Assume,
    ensures
        rocq_step(cert, step) == "Hypothesis "@ + step_name(step.id) + " : "@ + rocq_term(
            cert.signature,
            step.body->Assume_0,
        ) + ".\n"@,
{
}

/// Reflexivity proves that its term equals itself.
pub proof fn reflexivity_proves_a_term_equal_to_itself(cert: Certificate, step: Step)
    requires
        step.body is Refl,
    ensures
        ({
            let t = rocq_term(cert.signature, step.body->Refl_0);
            rocq_step(cert, step) == theorem_lines(
                step_name(step.id),
                t + " = "@ + t,
                "reflexivity."@,
            ) + "\n"@
        }),
{
}

/// Transitivity is applied to the step of the left equation, then to that of the right one.
pub proof fn transitivity_takes_the_left_equation_first(cert: Certificate, step: Step)
    requires
        step.body is Trans,
    ensures
        rocq_step(cert, step) == theorem_lines(
            step_name(step.id),
            rocq_term(cert.signature, step.result.concl.term),
            "exact (eq_trans "@ + step_name(step.body->lhs) + " "@ + step_name(step.body->rhs)
                + ")."@,
        ) + "\n"@,
{
}

/// Congruence is applied to the equation of the functions, then to that of the arguments.
pub proof fn congruence_takes_the_functions_first(cert: Certificate, step: Step)
    requires
        step.body is MkComb,
    ensures
        rocq_step(cert, step) == theorem_lines(
            step_name(step.id),
            rocq_term(cert.signature, step.result.concl.term),
            "exact (f_equal2 (fun f x => f x) "@ + step_name(step.body->fun_eq) + " "@ + step_name(
                step.body->arg_eq,
            ) + ")."@,
        ) + "\n"@,
{
}

/// An equivalence is applied to the proof of its left side: `proj1` takes the step that proves the
/// equivalence first, then the step that proves its left side, whatever their numbers.
pub proof fn an_equivalence_is_applied_to_its_left_side(cert: Certificate, step: Step)
    requires
        step.body is EqMp,
    ensures
        rocq_step(cert, step) == theorem_lines(
            step_name(step.id),
            rocq_term(cert.signature, step.result.concl.term),
            "exact (proj1 "@ + step_name(step.body->iff) + " "@ + step_name(step.body->p) + ")."@,
        ) + "\n"@,
{
}

/// A deduction abstracts over its first step and concludes its second.
pub proof fn a_deduction_abstracts_over_its_first_step(cert: Certificate, step: Step)
    requires
        step.body is Deduct,
    ensures
        rocq_step(cert, step) == theorem_lines(
            step_name(step.id),
            rocq_term(cert.signature, step.result.concl.term),
            "exact (fun _h_"@ + step_name(step.body->a) + " => "@ + step_name(step.body->b)
                + ")."@,
        ) + "\n"@,
{
}

/// A reduction holds by computation; a comment shows the redex.
pub proof fn a_reduction_holds_by_computation(cert: Certificate, step: Step)
    requires
        step.body is Beta,
    ensures
        rocq_step(cert, step) == theorem_lines(
            step_name(step.id),
            rocq_term(cert.signature, step.result.concl.term),
            "exact eq_refl."@,
        ) + " (* β-reduce: "@ + step.comment@ + " *)\n"@,
{
}

/// An abstraction of an equation holds by extensionality, over its variable.
pub proof fn an_abstracted_equation_holds_by_extensionality(cert: Certificate, step: Step)
    requires
        step.body is Abs,
    ensures
        rocq_step(cert, step) == theorem_lines(
            step_name(step.id),
            rocq_term(cert.signature, step.result.concl.term),
            "exact (functional_extensionality _ _ (fun "@ + step.body->var.name@ + " => "@
                + step_name(step.body->eq) + "))."@,
        ) + "\n"@,
{
}

/// An instantiation, of terms or of types, is the step that it instantiates.
pub proof fn an_instantiation_is_the_step_it_instantiates(cert: Certificate, step: Step)
    ensures
        step.body matches StepBody::Inst { thm } ==> rocq_step(cert, step) == theorem_lines(
            step_name(step.id),
            rocq_term(cert.signature, step.result.concl.term),
            "exact "@ + step_name(thm) + "."@,
        ) + "\n"@,
        step.body matches StepBody::InstType { thm } ==> rocq_step(cert, step) == theorem_lines(
            step_name(step.id),
            rocq_term(cert.signature, step.result.concl.term),
            "exact "@ + step_name(thm) + "."@,
        ) + "\n"@,
{
}

/// A theory step applies its oracle to all of its parents, in order.
pub proof fn a_theory_step_applies_its_oracle_to_its_parents(cert: Certificate, step: Step) -> (args:
    Seq<Seq<char>>)
    requires
        step.body is Theory,
    ensures
        args.len() == step.body->parents@.len(),
        forall|k: int|
            0 <= k < args.len() ==> #[trigger] args[k] == " "@ + step_name(step.body->parents@[k]),
        rocq_step(cert, step) == theorem_lines(
            step_name(step.id),
            rocq_term(cert.signature, step.result.concl.term),
            if args.len() == 0 {
                "exact "@ + ("adsmt_"@ + step_name(step.id)) + "."@
            } else {
                "exact ("@ + ("adsmt_"@ + step_name(step.id)) + args.flatten() + ")."@
            },
        ) + "\n"@,
{
    an_oracle_is_named_after_its_step(step);
    let parents = step.body->parents@;
    pieces_are_joined_in_order(parents.len(), parent_piece(parents))
}

/// The step states this proposition inside the section.
pub open spec fn states(sig: Signature, step: Step, prop: Seq<char>) -> bool {
    match step.body {
        StepBody::Assume(t) => rocq_term(sig, t) == prop,
        _ => rocq_term(sig, step.result.concl.term) == prop,
    }
}

proof fn lemma_first_proof(sig: Signature, steps: Seq<Step>, prop: Seq<char>, m: int)
    requires
        0 <= m < steps.len(),
        states(sig, steps[m], prop),
        forall|j: int| 0 <= j < m ==> !states(sig, #[trigger] steps[j], prop),
    ensures
        proof_of(sig, steps, prop) == Some(steps[m].id),
    decreases m,
{
    if m > 0 {
        let rest = steps.skip(1);
        assert(!states(sig, steps[0], prop));
        assert forall|j: int| 0 <= j < m - 1 implies !states(sig, #[trigger] rest[j], prop) by {
            assert(rest[j] == steps[j + 1]);
        }
        lemma_first_proof(sig, rest, prop, m - 1);
    }
}

proof fn lemma_no_proof(sig: Signature, steps: Seq<Step>, prop: Seq<char>)
    requires
        forall|j: int| 0 <= j < steps.len() ==> !states(sig, #[trigger] steps[j], prop),
    ensures
        proof_of(sig, steps, prop) is None,
    decreases steps.len(),
{
    if steps.len() > 0 {
        let rest = steps.skip(1);
        assert(!states(sig, steps[0], prop));
        assert forall|j: int| 0 <= j < rest.len() implies !states(sig, #[trigger] rest[j], prop) by {
            assert(rest[j] == steps[j + 1]);
        }
        lemma_no_proof(sig, rest, prop);
    }
}

/// A type-class instance applies its oracle to one argument per hypothesis, in order: the first step
/// that states the hypothesis, or a placeholder where none does.
pub proof fn an_instance_applies_its_oracle_to_its_hypotheses(cert: Certificate, step: Step) -> (args:
    Seq<Seq<char>>)
    requires
        step.body is Instance,
    ensures
        args.len() == step.result.hyps@.len(),
        forall|k: int, m: int|
            0 <= k < args.len() && 0 <= m < cert.steps@.len() && states(
                cert.signature,
                cert.steps@[m],
                rocq_term(cert.signature, step.result.hyps@[k].term),
            ) && (forall|j: int|
                0 <= j < m ==> !states(
                    cert.signature,
                    #[trigger] cert.steps@[j],
                    rocq_term(cert.signature, step.result.hyps@[k].term),
                )) ==> #[trigger] args[k] == " "@ + step_name((#[trigger] cert.steps@[m]).id),
        forall|k: int|
            0 <= k < args.len() && (forall|j: int|
                0 <= j < cert.steps@.len() ==> !states(
                    cert.signature,
                    #[trigger] cert.steps@[j],
                    rocq_term(cert.signature, step.result.hyps@[k].term),
                )) ==> #[trigger] args[k] == " "@ + "_"@,
        rocq_step(cert, step) == theorem_lines(
            step_name(step.id),
            rocq_term(cert.signature, step.result.concl.term),
            if args.len() == 0 {
                "exact "@ + ("adsmt_"@ + step_name(step.id)) + "."@
            } else {
                "exact ("@ + ("adsmt_"@ + step_name(step.id)) + args.flatten() + ")."@
            },
        ) + "\n"@,
{
    an_oracle_is_named_after_its_step(step);
    let sig = cert.signature;
    let hyps = step.result.hyps@;
    let props = hypothesis_texts(sig, hyps);
    let args = pieces_are_joined_in_order(props.len(), argument_piece(cert, props));
    assert forall|k: int, m: int|
        0 <= k < args.len() && 0 <= m < cert.steps@.len() && states(
            sig,
            cert.steps@[m],
            rocq_term(sig, hyps[k].term),
        ) && (forall|j: int|
            0 <= j < m ==> !states(sig, #[trigger] cert.steps@[j], rocq_term(sig, hyps[k].term)))
        implies #[trigger] args[k] == " "@ + step_name((#[trigger] cert.steps@[m]).id) by {
        assert(props[k] == rocq_term(sig, hyps[k].term));
        lemma_first_proof(sig, cert.steps@, props[k], m);
    }
    assert forall|k: int|
        0 <= k < args.len() && (forall|j: int|
            0 <= j < cert.steps@.len() ==> !states(
                sig,
                #[trigger] cert.steps@[j],
                rocq_term(sig, hyps[k].term),
            )) implies #[trigger] args[k] == " "@ + "_"@ by {
        assert(props[k] == rocq_term(sig, hyps[k].term));
        lemma_no_proof(sig, cert.steps@, props[k]);
    }
    args
}

/// An assumption of the user's is its oracle.
pub proof fn an_assumption_of_the_users_is_its_oracle(cert: Certificate, step: Step)
    requires
        step.body is Assumed,
    ensures
        rocq_step(cert, step) == theorem_lines(
            step_name(step.id),
            rocq_term(cert.signature, step.result.concl.term),
            "exact "@ + ("adsmt_assumed_"@ + step_name(step.id)) + "."@,
        ) + "\n"@,
        rocq_oracle(cert, step) == "(* USER-SUPPLIED ASSUMPTION (not proved): "@ + step.comment@
            + " *)\n"@ + "Axiom "@ + ("adsmt_assumed_"@ + step_name(step.id)) + " : "@ + rocq_term(
            cert.signature,
            step.body->formula,
        ) + ".\n"@,
{
    an_oracle_is_named_after_its_step(step);
}

/// An implication is its premises in order, an arrow behind each, and the conclusion.
pub proof fn an_implication_has_an_arrow_behind_each_premise(
    prems: Seq<Seq<char>>,
    concl: Seq<char>,
) -> (arrows: Seq<Seq<char>>)
    ensures
        arrows.len() == prems.len(),
        forall|k: int| 0 <= k < arrows.len() ==> #[trigger] arrows[k] == prems[k] + " -> "@,
        implication(prems, concl) == arrows.flatten() + concl,
    decreases prems.len(),
{
    if prems.len() == 0 {
        assert(Seq::<char>::empty() + concl =~= concl);
        Seq::empty()
    } else {
        let rest = an_implication_has_an_arrow_behind_each_premise(prems.skip(1), concl);
        let first = prems[0] + " -> "@;
        let arrows = seq![first] + rest;
        assert(arrows.drop_first() =~= rest);
        assert(first + (rest.flatten() + concl) =~= first + rest.flatten() + concl);
        assert forall|k: int| 0 <= k < arrows.len() implies #[trigger] arrows[k] == prems[k]
            + " -> "@ by {
            if k > 0 {
                assert(arrows[k] == rest[k - 1]);
                assert(prems.skip(1)[k - 1] == prems[k]);
            }
        }
        arrows
    }
}

/// Discharging the premises in two parts is discharging them all.
pub proof fn implications_compose(a: Seq<Seq<char>>, b: Seq<Seq<char>>, concl: Seq<char>)
    ensures
        implication(a + b, concl) == implication(a, implication(b, concl)),
    decreases a.len(),
{
    if a.len() == 0 {
        assert(a + b =~= b);
    } else {
        implications_compose(a.skip(1), b, concl);
        assert((a + b).skip(1) =~= a.skip(1) + b);
    }
}

/// The conclusion of a step number is that of the first step with it; a number that no step has has
/// none.
pub proof fn the_first_step_of_a_number_counts(sig: Signature, steps: Seq<Step>, id: StepId, m: int)
    ensures
        0 <= m < steps.len() && steps[m].id == id && (forall|j: int|
            0 <= j < m ==> (#[trigger] steps[j]).id != id) ==> conclusion_of(sig, steps, id) == Some(
            rocq_term(sig, steps[m].result.concl.term),
        ),
        (forall|j: int| 0 <= j < steps.len() ==> (#[trigger] steps[j]).id != id) ==> conclusion_of(
            sig,
            steps,
            id,
        ) is None,
    decreases steps.len(),
{
    if steps.len() > 0 {
        let rest = steps.skip(1);
        if 0 < m < steps.len() && steps[m].id == id && (forall|j: int|
            0 <= j < m ==> (#[trigger] steps[j]).id != id) {
            assert(steps[0].id != id);
            assert forall|j: int| 0 <= j < m - 1 implies (#[trigger] rest[j]).id != id by {
                assert(rest[j] == steps[j + 1]);
            }
            the_first_step_of_a_number_counts(sig, rest, id, m - 1);
            assert(rest[m - 1] == steps[m]);
        }
        if forall|j: int| 0 <= j < steps.len() ==> (#[trigger] steps[j]).id != id {
            assert(steps[0].id != id);
            assert forall|j: int| 0 <= j < rest.len() implies (#[trigger] rest[j]).id != id by {
                assert(rest[j] == steps[j + 1]);
            }
            the_first_step_of_a_number_counts(sig, rest, id, 0);
        }
    }
}

/// Some step has this number.
pub open spec fn has_step(steps: Seq<Step>, id: StepId) -> bool {
    exists|m: int| 0 <= m < steps.len() && (#[trigger] steps[m]).id == id
}

/// The step at position `m` is the first with this number.
pub open spec fn is_first(steps: Seq<Step>, id: StepId, m: int) -> bool {
    &&& 0 <= m < steps.len()
    &&& steps[m].id == id
    &&& forall|j: int| 0 <= j < m ==> (#[trigger] steps[j]).id != id
}

proof fn lemma_first_exists(steps: Seq<Step>, id: StepId, n: int) -> (m: int)
    requires
        0 <= n < steps.len(),
        steps[n].id == id,
    ensures
        is_first(steps, id, m),
    decreases n,
{
    if exists|j: int| 0 <= j < n && (#[trigger] steps[j]).id == id {
        let j = choose|j: int| 0 <= j < n && (#[trigger] steps[j]).id == id;
        lemma_first_exists(steps, id, j)
    } else {
        n
    }
}

/// A theory oracle has one premise for each parent that the certificate has, and no other, in the
/// order of the parents: the conclusion of the first step with the parent's number. `at` gives the
/// positions of those parents.
pub proof fn a_premise_for_each_parent_that_is_there(
    sig: Signature,
    steps: Seq<Step>,
    parents: Seq<StepId>,
) -> (at: Seq<int>)
    ensures
        premises(sig, steps, parents).len() == at.len(),
        forall|k: int| 0 <= k < at.len() ==> 0 <= #[trigger] at[k] < parents.len(),
        forall|k: int, l: int| 0 <= k < l < at.len() ==> #[trigger] at[k] < #[trigger] at[l],
        forall|p: int|
            0 <= p < parents.len() ==> (#[trigger] at.contains(p) <==> exists|m: int|
                0 <= m < steps.len() && (#[trigger] steps[m]).id == parents[p]),
        forall|k: int, m: int|
            0 <= k < at.len() && #[trigger] is_first(steps, parents[at[k]], m) ==> premises(
                sig,
                steps,
                parents,
            )[k] == rocq_term(sig, steps[m].result.concl.term),
    decreases parents.len(),
{
    if parents.len() == 0 {
        Seq::empty()
    } else {
        let init = parents.drop_last();
        let before = a_premise_for_each_parent_that_is_there(sig, steps, init);
        let last = parents.len() - 1;
        let id = parents.last();
        let at = if exists|m: int| 0 <= m < steps.len() && (#[trigger] steps[m]).id == id {
            let n = choose|m: int| 0 <= m < steps.len() && (#[trigger] steps[m]).id == id;
            let m = lemma_first_exists(steps, id, n);
            the_first_step_of_a_number_counts(sig, steps, id, m);
            before.push(last)
        } else {
            the_first_step_of_a_number_counts(sig, steps, id, 0);
            before
        };
        assert forall|p: int| 0 <= p < parents.len() implies (#[trigger] at.contains(p)
            <==> exists|m: int| 0 <= m < steps.len() && (#[trigger] steps[m]).id == parents[p]) by {
            if p < last {
                assert(before.contains(p) <==> exists|m: int|
                    0 <= m < steps.len() && (#[trigger] steps[m]).id == init[p]);
                if before.contains(p) {
                    let k = choose|k: int| 0 <= k < before.len() && before[k] == p;
                    assert(at[k] == p);
                }
                if at.contains(p) {
                    let k = choose|k: int| 0 <= k < at.len() && at[k] == p;
                    assert(k < before.len());
                    assert(before[k] == p);
                }
            } else if at.len() > before.len() {
                assert(at[before.len() as int] == p);
            } else if at.contains(p) {
                let k = choose|k: int| 0 <= k < at.len() && at[k] == p;
                assert(before[k] == p);
            }
        }
        assert forall|k: int, m: int|
            0 <= k < at.len() && #[trigger] is_first(steps, parents[at[k]], m) implies premises(
            sig,
            steps,
            parents,
        )[k] == rocq_term(sig, steps[m].result.concl.term) by {
            the_first_step_of_a_number_counts(sig, steps, parents[at[k]], m);
            if k < before.len() {
                assert(at[k] == before[k]);
                assert(is_first(steps, init[before[k]], m));
            }
        }
        at
    }
}

/// Where the certificate has every parent, the oracle has exactly one premise per parent: as many as
/// the theorem of the step applies it to.
pub proof fn an_oracle_has_one_premise_per_parent(
    sig: Signature,
    steps: Seq<Step>,
    parents: Seq<StepId>,
)
    requires
        forall|p: int| 0 <= p < parents.len() ==> has_step(steps, #[trigger] parents[p]),
    ensures
        premises(sig, steps, parents).len() == parents.len(),
        forall|k: int, m: int|
            0 <= k < parents.len() && #[trigger] is_first(steps, parents[k], m) ==> premises(
                sig,
                steps,
                parents,
            )[k] == rocq_term(sig, steps[m].result.concl.term),
    decreases parents.len(),
{
    if parents.len() > 0 {
        let init = parents.drop_last();
        assert forall|p: int| 0 <= p < init.len() implies has_step(steps, #[trigger] init[p]) by {
            assert(init[p] == parents[p]);
        }
        an_oracle_has_one_premise_per_parent(sig, steps, init);
        let id = parents[parents.len() - 1];
        assert(has_step(steps, id));
        let n = choose|m: int| 0 <= m < steps.len() && (#[trigger] steps[m]).id == id;
        let first = lemma_first_exists(steps, id, n);
        the_first_step_of_a_number_counts(sig, steps, id, first);
        assert forall|k: int, m: int|
            0 <= k < parents.len() && #[trigger] is_first(steps, parents[k], m) implies premises(
            sig,
            steps,
            parents,
        )[k] == rocq_term(sig, steps[m].result.concl.term) by {
            the_first_step_of_a_number_counts(sig, steps, parents[k], m);
            if k < init.len() {
                assert(is_first(steps, init[k], m));
            }
        }
    }
}

/// A theory oracle says which theory decided and why, and states its premises with an arrow behind
/// each, then the conclusion: as an axiom, or as a theorem that the user's tactic proves.
pub proof fn a_theory_oracle_is_its_premises_and_its_conclusion(cert: Certificate, step: Step) -> (
    arrows: Seq<Seq<char>>)
    requires
        step.body is Theory,
    ensures
        arrows.len() == premises(cert.signature, cert.steps@, step.body->parents@).len(),
        forall|k: int|
            0 <= k < arrows.len() ==> #[trigger] arrows[k] == premises(
                cert.signature,
                cert.steps@,
                step.body->parents@,
            )[k] + " -> "@,
        ({
            let name = "adsmt_"@ + step_name(step.id);
            let prop = arrows.flatten() + rocq_term(cert.signature, step.result.concl.term);
            let note = "(* theory `"@ + step.body->Theory_name@ + "`; witness: "@
                + step.body->witness@ + " *)\n"@;
            rocq_oracle(cert, step) == match step.body->tactic {
                None => note + "Axiom "@ + name + " : "@ + prop + ".\n"@,
                Some(tactic) => note + "(* user tactic hint (replaces the oracle) *)\n"@
                    + "Theorem "@ + name + " : "@ + prop + ".\nProof. "@ + tactic@ + " Qed.\n"@,
            }
        }),
{
    an_oracle_is_named_after_its_step(step);
    an_implication_has_an_arrow_behind_each_premise(
        premises(cert.signature, cert.steps@, step.body->parents@),
        rocq_term(cert.signature, step.result.concl.term),
    )
}

/// The oracle of a type-class instance states the hypotheses of its sequent, all of them in order
/// with an arrow behind each, then the conclusion.
pub proof fn an_instance_oracle_is_its_hypotheses_and_its_conclusion(
    cert: Certificate,
    step: Step,
) -> (arrows: Seq<Seq<char>>)
    requires
        step.body is Instance,
    ensures
        arrows.len() == step.result.hyps@.len(),
        forall|k: int|
            0 <= k < arrows.len() ==> #[trigger] arrows[k] == rocq_term(
                cert.signature,
                step.result.hyps@[k].term,
            ) + " -> "@,
        rocq_oracle(cert, step) == "(* type-class instance for `"@ + step.body->relation@
            + "` *)\n"@ + "Axiom "@ + ("adsmt_"@ + step_name(step.id)) + " : "@ + (arrows.flatten()
            + rocq_term(cert.signature, step.result.concl.term)) + ".\n"@,
{
    an_oracle_is_named_after_its_step(step);
    an_implication_has_an_arrow_behind_each_premise(
        hypothesis_texts(cert.signature, step.result.hyps@),
        rocq_term(cert.signature, step.result.concl.term),
    )
}

/// The step is one that no tactic can replay.
pub open spec fn leans_on_an_oracle(step: Step) -> bool {
    match step.body {
        StepBody::Theory { .. } => true,
        StepBody::Instance { .. } => true,
        StepBody::Assumed { .. } => true,
        _ => false,
    }
}

/// The oracles are stated one after the other in the order of the steps, one for each step that
/// leans on one, with a blank line behind them; without such a step nothing is written.
pub proof fn every_oracle_is_stated_once_in_order(cert: Certificate) -> (parts: Seq<Seq<char>>)
    ensures
        parts.len() == cert.steps@.len(),
        forall|i: int|
            0 <= i < parts.len() ==> #[trigger] parts[i] == if leans_on_an_oracle(cert.steps@[i]) {
                rocq_oracle(cert, cert.steps@[i])
            } else {
                Seq::empty()
            },
        (exists|i: int| 0 <= i < cert.steps@.len() && leans_on_an_oracle(#[trigger] cert.steps@[i]))
            ==> rocq_oracles(cert) == parts.flatten() + "\n"@,
        (forall|i: int|
            0 <= i < cert.steps@.len() ==> !leans_on_an_oracle(#[trigger] cert.steps@[i]))
            ==> rocq_oracles(cert) == Seq::<char>::empty(),
{
    let parts = pieces_are_joined_in_order(cert.steps@.len(), oracle_piece(cert));
    if exists|i: int| 0 <= i < cert.steps@.len() && leans_on_an_oracle(#[trigger] cert.steps@[i]) {
        let i = choose|i: int|
            0 <= i < cert.steps@.len() && leans_on_an_oracle(#[trigger] cert.steps@[i]);
        assert(crate::steps::needs_oracle(cert.steps@[i]));
        assert(crate::steps::has_oracle(cert));
    }
    if forall|i: int| 0 <= i < cert.steps@.len() ==> !leans_on_an_oracle(#[trigger] cert.steps@[i]) {
        if crate::steps::has_oracle(cert) {
            let i = choose|i: int|
                0 <= i < cert.steps@.len() && crate::steps::needs_oracle(#[trigger] cert.steps@[i]);
            assert(leans_on_an_oracle(cert.steps@[i]));
        }
    }
    parts
}

/// A comment shows the redex of a reduction or the user's explanation of an assumption, an empty one
/// where there is none; no other step shows anything.
pub proof fn comments_show_redexes_and_explanations(sig: Signature, body: StepBody)
    ensures
        body matches StepBody::Beta { redex } ==> shown_in_comment(sig, body) == Some(
            rocq_term(sig, redex),
        ),
        body matches StepBody::Assumed { explain, .. } ==> match explain {
            Some(text) => shown_in_comment(sig, body) == Some(text@),
            None => shown_in_comment(sig, body) matches Some(text) && text.len() == 0,
        },
        !(body is Beta) && !(body is Assumed) ==> shown_in_comment(sig, body) is None,
{
    reveal_strlit("");
}

} // verus!
