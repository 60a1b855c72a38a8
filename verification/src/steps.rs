//! Proof steps in Rocq.
//!
//! Inside a section every step becomes a hypothesis or a theorem. A step that no Rocq tactic can
//! replay leans on an oracle, which is stated before the section.
use vstd::prelude::*;

use crate::certificate::{Certificate, Formula, Signature, Step, StepBody, StepId};
use crate::term::{render_term, rocq_term};
use crate::text::{decimal, decimal_text, pieces, same, texts};

verus! {

/// The Rocq name of a step: `s` and its number.
pub open spec fn step_name(id: StepId) -> Seq<char> {
    "s"@ + decimal_text(id.0 as nat)
}

fn render_step_name(id: StepId) -> (r: String)
    ensures
        r@ == step_name(id),
{
    let mut out: String = "s".to_owned();
    out.append(decimal(id.0).as_str());
    out
}

/// The conclusion, in Rocq syntax, of the first of the steps that has this number.
pub open spec fn conclusion_of(sig: Signature, steps: Seq<Step>, id: StepId) -> Option<Seq<char>>
    decreases steps.len(),
{
    if steps.len() == 0 {
        None
    } else if steps[0].id == id {
        Some(rocq_term(sig, steps[0].result.concl.term))
    } else {
        conclusion_of(sig, steps.skip(1), id)
    }
}

/// The conclusion of a step, if the certificate has that step.
pub fn step_concl(cert: &Certificate, id: StepId) -> (r: Option<String>)
    ensures
        match r {
            Some(concl) => conclusion_of(cert.signature, cert.steps@, id) == Some(concl@),
            None => conclusion_of(cert.signature, cert.steps@, id) is None,
        },
{
    assert(cert.steps@.skip(0) =~= cert.steps@);
    for i in 0..cert.steps.len()
        invariant
            conclusion_of(cert.signature, cert.steps@, id) == conclusion_of(
                cert.signature,
                cert.steps@.skip(i as int),
                id,
            ),
    {
        let ghost rest = cert.steps@.skip(i as int);
        assert(rest.skip(1) =~= cert.steps@.skip(i + 1));
        if cert.steps[i].id == id {
            return Some(render_term(&cert.signature, &cert.steps[i].result.concl.term));
        }
    }
    None
}

/// `p1 -> p2 -> ... -> concl`.
pub open spec fn implication(prems: Seq<Seq<char>>, concl: Seq<char>) -> Seq<char>
    decreases prems.len(),
{
    if prems.len() == 0 {
        concl
    } else {
        prems[0] + " -> "@ + implication(prems.skip(1), concl)
    }
}

/// Writes an implication: `[p1, p2]` and `c` give `p1 -> p2 -> c`; no premises give just `c`.
pub fn rocq_implication_str(prems: &[String], concl: &str) -> (r: String)
    ensures
        r@ == implication(texts(prems@), concl@),
{
    let mut out: String = concl.to_owned();
    let mut i: usize = prems.len();
    while i > 0
        invariant
            i <= prems@.len(),
            out@ == implication(texts(prems@).skip(i as int), concl@),
        decreases i,
    {
        i = i - 1;
        let mut longer: String = prems[i].clone();
        longer.append(" -> ");
        longer.append(out.as_str());
        out = longer;
        assert(texts(prems@).skip(i as int).skip(1) =~= texts(prems@).skip(i + 1));
    }
    assert(texts(prems@).skip(0) =~= texts(prems@));
    out
}

/// The name of the oracle that a step leans on. One that the user supplied is told apart from a
/// solver's by its name, since a list of a theorem's assumptions shows nothing else.
pub open spec fn rocq_oracle_name(step: Step) -> Seq<char> {
    match step.body {
        StepBody::Assumed { .. } => "adsmt_assumed_s"@ + decimal_text(step.id.0 as nat),
        _ => "adsmt_s"@ + decimal_text(step.id.0 as nat),
    }
}

/// The name of a step's oracle.
pub fn oracle_name(step: &Step) -> (r: String)
    ensures
        r@ == rocq_oracle_name(*step),
{
    let mut out: String = match &step.body {
        StepBody::Assumed { .. } => "adsmt_assumed_s".to_owned(),
        _ => "adsmt_s".to_owned(),
    };
    out.append(decimal(step.id.0).as_str());
    out
}

/// The conclusions of those parents that the certificate has, in order.
pub open spec fn premises(
    sig: Signature,
    steps: Seq<Step>,
    parents: Seq<StepId>,
) -> Seq<Seq<char>>
    decreases parents.len(),
{
    if parents.len() == 0 {
        Seq::empty()
    } else {
        match conclusion_of(sig, steps, parents.last()) {
            Some(concl) => premises(sig, steps, parents.drop_last()).push(concl),
            None => premises(sig, steps, parents.drop_last()),
        }
    }
}

fn parent_conclusions(cert: &Certificate, parents: &Vec<StepId>) -> (r: Vec<String>)
    ensures
        texts(r@) == premises(cert.signature, cert.steps@, parents@),
{
    let mut out: Vec<String> = Vec::new();
    assert(texts(out@) =~= Seq::<Seq<char>>::empty());
    for i in 0..parents.len()
        invariant
            texts(out@) == premises(cert.signature, cert.steps@, parents@.take(i as int)),
    {
        assert(parents@.take(i + 1).drop_last() =~= parents@.take(i as int));
        let ghost before = out@;
        if let Some(concl) = step_concl(cert, parents[i]) {
            out.push(concl);
            assert(texts(out@) =~= texts(before).push(concl@));
        }
    }
    assert(parents@.take(parents@.len() as int) =~= parents@);
    out
}

/// The hypotheses of a sequent in Rocq syntax.
pub open spec fn hypothesis_texts(sig: Signature, hyps: Seq<Formula>) -> Seq<Seq<char>> {
    Seq::new(hyps.len(), |i: int| rocq_term(sig, hyps[i].term))
}

fn render_hypotheses(cert: &Certificate, hyps: &Vec<Formula>) -> (r: Vec<String>)
    ensures
        texts(r@) == hypothesis_texts(cert.signature, hyps@),
{
    let mut out: Vec<String> = Vec::new();
    for i in 0..hyps.len()
        invariant
            out@.len() == i,
            forall|j: int| 0 <= j < i ==> (#[trigger] out@[j])@ == rocq_term(
                cert.signature,
                hyps@[j].term,
            ),
    {
        out.push(render_term(&cert.signature, &hyps[i].term));
    }
    assert(texts(out@) =~= hypothesis_texts(cert.signature, hyps@));
    out
}

/// What a step proves inside the section, in Rocq syntax: the assumed formula or the conclusion.
pub open spec fn proved(sig: Signature, step: Step) -> Seq<char> {
    match step.body {
        StepBody::Assume(t) => rocq_term(sig, t),
        _ => rocq_term(sig, step.result.concl.term),
    }
}

/// The first of the steps that proves this proposition.
pub open spec fn proof_of(sig: Signature, steps: Seq<Step>, prop: Seq<char>) -> Option<StepId>
    decreases steps.len(),
{
    if steps.len() == 0 {
        None
    } else if proved(sig, steps[0]) == prop {
        Some(steps[0].id)
    } else {
        proof_of(sig, steps.skip(1), prop)
    }
}

fn find_proof(cert: &Certificate, prop: &str) -> (r: Option<StepId>)
    ensures
        r == proof_of(cert.signature, cert.steps@, prop@),
{
    assert(cert.steps@.skip(0) =~= cert.steps@);
    for i in 0..cert.steps.len()
        invariant
            proof_of(cert.signature, cert.steps@, prop@) == proof_of(
                cert.signature,
                cert.steps@.skip(i as int),
                prop@,
            ),
    {
        let ghost rest = cert.steps@.skip(i as int);
        assert(rest.skip(1) =~= cert.steps@.skip(i + 1));
        let step: &Step = &cert.steps[i];
        let text: String = match &step.body {
            StepBody::Assume(t) => render_term(&cert.signature, t),
            _ => render_term(&cert.signature, &step.result.concl.term),
        };
        if same(text.as_str(), prop) {
            return Some(step.id);
        }
    }
    None
}

/// The oracle of a step, stated before the section; empty for a step that needs none.
///
/// A theory decision and a type-class instance are stated as premises implying the conclusion. The
/// premises of a decision are the conclusions of its parents, as far as the certificate has them;
/// those of an instance are the hypotheses of its sequent. So the module stays consistent however
/// contradictory these are; without premises the oracle is the conclusion. A tactic that the user
/// supplied for a decision replaces the axiom: Rocq then checks it. An assumption of the user's is
/// stated as it is.
pub open spec fn rocq_oracle(cert: Certificate, step: Step) -> Seq<char> {
    let sig = cert.signature;
    let name = rocq_oracle_name(step);
    match step.body {
        StepBody::Theory { name: theory, witness, tactic, parents } => {
            let prop = implication(
                premises(sig, cert.steps@, parents@),
                rocq_term(sig, step.result.concl.term),
            );
            let note = "(* theory `"@ + theory@ + "`; witness: "@ + witness@ + " *)\n"@;
            match tactic {
                Some(tac) => note + "(* user tactic hint (replaces the oracle) *)\n"@ + "Theorem "@
                    + name + " : "@ + prop + ".\nProof. "@ + tac@ + " Qed.\n"@,
                None => note + "Axiom "@ + name + " : "@ + prop + ".\n"@,
            }
        },
        StepBody::Instance { relation } => {
            let prop = implication(
                hypothesis_texts(sig, step.result.hyps@),
                rocq_term(sig, step.result.concl.term),
            );
            "(* type-class instance for `"@ + relation@ + "` *)\n"@ + "Axiom "@ + name + " : "@
                + prop + ".\n"@
        },
        StepBody::Assumed { formula, explain } => "(* USER-SUPPLIED ASSUMPTION (not proved): "@
            + step.comment@ + " *)\n"@ + "Axiom "@ + name + " : "@ + rocq_term(sig, formula)
            + ".\n"@,
        _ => Seq::empty(),
    }
}

/// The step leans on an oracle.
pub open spec fn needs_oracle(step: Step) -> bool {
    step.body is Theory || step.body is Instance || step.body is Assumed
}

fn render_oracle(cert: &Certificate, step: &Step) -> (r: Option<String>)
    ensures
        match r {
            Some(text) => needs_oracle(*step) && text@ == rocq_oracle(*cert, *step),
            None => !needs_oracle(*step),
        },
{
    let name: String = oracle_name(step);
    match &step.body {
        StepBody::Theory { name: theory, witness, tactic, parents } => {
            let prems: Vec<String> = parent_conclusions(cert, parents);
            let concl: String = render_term(&cert.signature, &step.result.concl.term);
            let prop: String = rocq_implication_str(prems.as_slice(), concl.as_str());
            let mut out: String = "(* theory `".to_owned();
            out.append(theory.as_str());
            out.append("`; witness: ");
            out.append(witness.as_str());
            out.append(" *)\n");
            match tactic {
                Some(tac) => {
                    out.append("(* user tactic hint (replaces the oracle) *)\n");
                    out.append("Theorem ");
                    out.append(name.as_str());
                    out.append(" : ");
                    out.append(prop.as_str());
                    out.append(".\nProof. ");
                    out.append(tac.as_str());
                    out.append(" Qed.\n");
                },
                None => {
                    out.append("Axiom ");
                    out.append(name.as_str());
                    out.append(" : ");
                    out.append(prop.as_str());
                    out.append(".\n");
                },
            }
            Some(out)
        },
        StepBody::Instance { relation } => {
            let prems: Vec<String> = render_hypotheses(cert, &step.result.hyps);
            let concl: String = render_term(&cert.signature, &step.result.concl.term);
            let prop: String = rocq_implication_str(prems.as_slice(), concl.as_str());
            let mut out: String = "(* type-class instance for `".to_owned();
            out.append(relation.as_str());
            out.append("` *)\n");
            out.append("Axiom ");
            out.append(name.as_str());
            out.append(" : ");
            out.append(prop.as_str());
            out.append(".\n");
            Some(out)
        },
        StepBody::Assumed { formula, explain } => {
            let mut out: String = "(* USER-SUPPLIED ASSUMPTION (not proved): ".to_owned();
            out.append(step.comment.as_str());
            out.append(" *)\n");
            out.append("Axiom ");
            out.append(name.as_str());
            out.append(" : ");
            out.append(render_term(&cert.signature, formula).as_str());
            out.append(".\n");
            Some(out)
        },
        _ => None,
    }
}

/// The oracle of the `i`-th step.
pub open spec fn oracle_piece(cert: Certificate) -> spec_fn(int) -> Seq<char> {
    |i: int| rocq_oracle(cert, cert.steps@[i])
}

/// Some step leans on an oracle.
pub open spec fn has_oracle(cert: Certificate) -> bool {
    exists|i: int| 0 <= i < cert.steps@.len() && needs_oracle(#[trigger] cert.steps@[i])
}

/// The oracles of a certificate, in the order of the steps.
pub open spec fn rocq_oracles(cert: Certificate) -> Seq<char> {
    if has_oracle(cert) {
        pieces(cert.steps@.len(), oracle_piece(cert)) + "\n"@
    } else {
        Seq::empty()
    }
}

proof fn lemma_no_oracles(cert: Certificate, n: nat)
    requires
        n <= cert.steps@.len(),
        forall|i: int| 0 <= i < n ==> !needs_oracle(#[trigger] cert.steps@[i]),
    ensures
        pieces(n, oracle_piece(cert)) == Seq::<char>::empty(),
    decreases n,
{
    if n > 0 {
        lemma_no_oracles(cert, (n - 1) as nat);
        assert(!needs_oracle(cert.steps@[n - 1]));
    }
}

/// Appends the oracles of a certificate to `out`.
pub fn emit_oracles(cert: &Certificate, out: &mut String)
    ensures
        final(out)@ == old(out)@ + rocq_oracles(*cert),
{
    let mut text: String = String::new();
    let mut any: bool = false;
    for i in 0..cert.steps.len()
        invariant
            text@ == pieces(i as nat, oracle_piece(*cert)),
            any == (exists|k: int| 0 <= k < i && needs_oracle(#[trigger] cert.steps@[k])),
    {
        match render_oracle(cert, &cert.steps[i]) {
            Some(oracle) => {
                text.append(oracle.as_str());
                any = true;
            },
            None => {
                assert(text@ + Seq::<char>::empty() =~= text@);
            },
        }
    }
    if any {
        text.append("\n");
    } else {
        proof {
            lemma_no_oracles(*cert, cert.steps@.len());
        }
    }
    out.append(text.as_str());
}

/// The text that a step shows in a comment, before it is escaped: the redex of a beta step, the
/// explanation of an assumption of the user's.
pub open spec fn shown_in_comment(sig: Signature, body: StepBody) -> Option<Seq<char>> {
    match body {
        StepBody::Beta { redex } => Some(rocq_term(sig, redex)),
        StepBody::Assumed { formula, explain } => Some(
            match explain {
                Some(text) => text@,
                None => ""@,
            },
        ),
        _ => None,
    }
}

/// The text that a step shows in a comment, if it shows any.
pub fn comment_text(sig: &Signature, body: &StepBody) -> (r: Option<String>)
    ensures
        match r {
            Some(text) => shown_in_comment(*sig, *body) == Some(text@),
            None => shown_in_comment(*sig, *body) is None,
        },
{
    match body {
        StepBody::Beta { redex } => Some(render_term(sig, redex)),
        StepBody::Assumed { formula, explain } => match explain {
            Some(text) => Some(text.clone()),
            None => Some("".to_owned()),
        },
        _ => None,
    }
}

/// A theorem with its proof, up to the closing `Qed.`
pub open spec fn theorem(name: Seq<char>, statement: Seq<char>, script: Seq<char>) -> Seq<char> {
    "Theorem "@ + name + " : "@ + statement + ".\nProof. "@ + script + " Qed."@
}

/// ` s<i>` for each parent.
pub open spec fn parent_piece(parents: Seq<StepId>) -> spec_fn(int) -> Seq<char> {
    |i: int| " "@ + step_name(parents[i])
}

/// What the theorem of a step states: the step's conclusion, or for reflexivity `t = t`.
pub open spec fn statement(sig: Signature, step: Step) -> Seq<char> {
    match step.body {
        StepBody::Refl(t) => rocq_term(sig, t) + " = "@ + rocq_term(sig, t),
        _ => rocq_term(sig, step.result.concl.term),
    }
}

/// The name of the step that proves a proposition, or a placeholder, which Rocq refuses to fill,
/// where none does.
pub open spec fn argument(cert: Certificate, prop: Seq<char>) -> Seq<char> {
    match proof_of(cert.signature, cert.steps@, prop) {
        Some(id) => step_name(id),
        None => "_"@,
    }
}

/// ` s<i>` for each proposition, where the `i`-th step proves it.
pub open spec fn argument_piece(cert: Certificate, props: Seq<Seq<char>>) -> spec_fn(
    int,
) -> Seq<char> {
    |i: int| " "@ + argument(cert, props[i])
}

fn render_arguments(cert: &Certificate, props: &Vec<String>) -> (r: String)
    ensures
        r@ == pieces(props@.len(), argument_piece(*cert, texts(props@))),
{
    let mut out: String = String::new();
    for i in 0..props.len()
        invariant
            out@ == pieces(i as nat, argument_piece(*cert, texts(props@))),
    {
        assert(texts(props@)[i as int] == props@[i as int]@);
        let mut arg: String = " ".to_owned();
        match find_proof(cert, props[i].as_str()) {
            Some(id) => arg.append(render_step_name(id).as_str()),
            None => arg.append("_"),
        }
        out.append(arg.as_str());
    }
    out
}

/// The proof script of a step that is not an assumption. An oracle is applied to the steps that
/// prove its premises.
pub open spec fn script(cert: Certificate, step: Step) -> Seq<char> {
    match step.body {
        StepBody::Assume(_) => Seq::empty(),
        StepBody::Refl(_) => "reflexivity."@,
        StepBody::Trans { lhs, rhs } => "exact (eq_trans "@ + step_name(lhs) + " "@ + step_name(rhs)
            + ")."@,
        StepBody::MkComb { fun_eq, arg_eq } => "exact (f_equal2 (fun f x => f x) "@ + step_name(
            fun_eq,
        ) + " "@ + step_name(arg_eq) + ")."@,
        StepBody::EqMp { iff, p } => "exact (proj1 "@ + step_name(iff) + " "@ + step_name(p)
            + ")."@,
        StepBody::Deduct { a, b } => "exact (fun _h_"@ + step_name(a) + " => "@ + step_name(b)
            + ")."@,
        StepBody::Beta { .. } => "exact eq_refl."@,
        StepBody::Abs { var, eq } => "exact (functional_extensionality _ _ (fun "@ + var.name@
            + " => "@ + step_name(eq) + "))."@,
        StepBody::Inst { thm } => "exact "@ + step_name(thm) + "."@,
        StepBody::InstType { thm } => "exact "@ + step_name(thm) + "."@,
        StepBody::Theory { parents, .. } => if parents@.len() == 0 {
            "exact "@ + rocq_oracle_name(step) + "."@
        } else {
            "exact ("@ + rocq_oracle_name(step) + pieces(parents@.len(), parent_piece(parents@))
                + ")."@
        },
        StepBody::Instance { .. } => if step.result.hyps@.len() == 0 {
            "exact "@ + rocq_oracle_name(step) + "."@
        } else {
            let props = hypothesis_texts(cert.signature, step.result.hyps@);
            "exact ("@ + rocq_oracle_name(step) + pieces(props.len(), argument_piece(cert, props))
                + ")."@
        },
        StepBody::Assumed { .. } => "exact "@ + rocq_oracle_name(step) + "."@,
    }
}

/// A step inside the section.
///
/// An assumption is a hypothesis, not an axiom: closing the section discharges it, so the result
/// generalises over it and the module never asserts it. Every other step is a theorem with a
/// complete proof.
pub open spec fn rocq_step(cert: Certificate, step: Step) -> Seq<char> {
    match step.body {
        StepBody::Assume(t) => "Hypothesis "@ + step_name(step.id) + " : "@ + rocq_term(
            cert.signature,
            t,
        ) + ".\n"@,
        StepBody::Beta { .. } => theorem(
            step_name(step.id),
            statement(cert.signature, step),
            script(cert, step),
        )
            + " (* β-reduce: "@ + step.comment@ + " *)\n"@,
        _ => theorem(
            step_name(step.id),
            statement(cert.signature, step),
            script(cert, step),
        ) + "\n"@,
    }
}

fn render_theorem(name: &str, statement: &str, script: &str) -> (r: String)
    ensures
        r@ == theorem(name@, statement@, script@),
{
    let mut out: String = "Theorem ".to_owned();
    out.append(name);
    out.append(" : ");
    out.append(statement);
    out.append(".\nProof. ");
    out.append(script);
    out.append(" Qed.");
    out
}

fn render_script(cert: &Certificate, step: &Step) -> (r: String)
    ensures
        r@ == script(*cert, *step),
{
    match &step.body {
        StepBody::Assume(_) => String::new(),
        StepBody::Refl(_) => "reflexivity.".to_owned(),
        StepBody::Trans { lhs, rhs } => {
            let mut s: String = "exact (eq_trans ".to_owned();
            s.append(render_step_name(*lhs).as_str());
            s.append(" ");
            s.append(render_step_name(*rhs).as_str());
            s.append(").");
            s
        },
        StepBody::MkComb { fun_eq, arg_eq } => {
            let mut s: String = "exact (f_equal2 (fun f x => f x) ".to_owned();
            s.append(render_step_name(*fun_eq).as_str());
            s.append(" ");
            s.append(render_step_name(*arg_eq).as_str());
            s.append(").");
            s
        },
        StepBody::EqMp { iff, p } => {
            let mut s: String = "exact (proj1 ".to_owned();
            s.append(render_step_name(*iff).as_str());
            s.append(" ");
            s.append(render_step_name(*p).as_str());
            s.append(").");
            s
        },
        StepBody::Deduct { a, b } => {
            let mut s: String = "exact (fun _h_".to_owned();
            s.append(render_step_name(*a).as_str());
            s.append(" => ");
            s.append(render_step_name(*b).as_str());
            s.append(").");
            s
        },
        StepBody::Beta { .. } => "exact eq_refl.".to_owned(),
        StepBody::Abs { var, eq } => {
            let mut s: String = "exact (functional_extensionality _ _ (fun ".to_owned();
            s.append(var.name.as_str());
            s.append(" => ");
            s.append(render_step_name(*eq).as_str());
            s.append(")).");
            s
        },
        StepBody::Inst { thm } => {
            let mut s: String = "exact ".to_owned();
            s.append(render_step_name(*thm).as_str());
            s.append(".");
            s
        },
        StepBody::InstType { thm } => {
            let mut s: String = "exact ".to_owned();
            s.append(render_step_name(*thm).as_str());
            s.append(".");
            s
        },
        StepBody::Theory { parents, .. } => {
            if parents.len() == 0 {
                let mut s: String = "exact ".to_owned();
                s.append(oracle_name(step).as_str());
                s.append(".");
                s
            } else {
                let mut args: String = String::new();
                for i in 0..parents.len()
                    invariant
                        args@ == pieces(i as nat, parent_piece(parents@)),
                {
                    let mut arg: String = " ".to_owned();
                    arg.append(render_step_name(parents[i]).as_str());
                    args.append(arg.as_str());
                }
                let mut s: String = "exact (".to_owned();
                s.append(oracle_name(step).as_str());
                s.append(args.as_str());
                s.append(").");
                s
            }
        },
        StepBody::Instance { .. } => {
            if step.result.hyps.len() == 0 {
                let mut s: String = "exact ".to_owned();
                s.append(oracle_name(step).as_str());
                s.append(".");
                s
            } else {
                let props: Vec<String> = render_hypotheses(cert, &step.result.hyps);
                assert(props@.len() == texts(props@).len());
                let mut s: String = "exact (".to_owned();
                s.append(oracle_name(step).as_str());
                s.append(render_arguments(cert, &props).as_str());
                s.append(").");
                s
            }
        },
        StepBody::Assumed { .. } => {
            let mut s: String = "exact ".to_owned();
            s.append(oracle_name(step).as_str());
            s.append(".");
            s
        },
    }
}

/// Appends a step to `out`, as it stands inside the section.
pub fn emit_step(cert: &Certificate, step: &Step, out: &mut String)
    ensures
        final(out)@ == old(out)@ + rocq_step(*cert, *step),
{
    let name: String = render_step_name(step.id);
    let script: String = render_script(cert, step);
    let text: String = match &step.body {
        StepBody::Assume(t) => {
            let mut s: String = "Hypothesis ".to_owned();
            s.append(name.as_str());
            s.append(" : ");
            s.append(render_term(&cert.signature, t).as_str());
            s.append(".\n");
            s
        },
        StepBody::Refl(t) => {
            let mut statement: String = render_term(&cert.signature, t);
            statement.append(" = ");
            statement.append(render_term(&cert.signature, t).as_str());
            let mut s: String = render_theorem(name.as_str(), statement.as_str(), script.as_str());
            s.append("\n");
            s
        },
        StepBody::Beta { .. } => {
            let statement: String = render_term(&cert.signature, &step.result.concl.term);
            let mut s: String = render_theorem(name.as_str(), statement.as_str(), script.as_str());
            s.append(" (* β-reduce: ");
            s.append(step.comment.as_str());
            s.append(" *)\n");
            s
        },
        _ => {
            let statement: String = render_term(&cert.signature, &step.result.concl.term);
            let mut s: String = render_theorem(name.as_str(), statement.as_str(), script.as_str());
            s.append("\n");
            s
        },
    };
    out.append(text.as_str());
}

} // verus!
