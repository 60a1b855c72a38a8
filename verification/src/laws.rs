//! What holds of every emitted file.
use vstd::prelude::*;
use vstd::seq_lib::lemma_concat_associative;

use crate::certificate::{
    Certificate, DatatypeDecl, Formula, FunBody, FunDecl, Signature, SortDecl, Step,
    StepBody, StepId,
};
use crate::declarations::{
    binder_count, binder_piece, constructor_arity, constructor_piece, datatype_piece, declares,
    fun_piece, fun_type, has_selectors, is_datatype, is_user_sort, operator_piece, rocq_datatype,
    rocq_declarations, rocq_fun, rocq_funs, rocq_sort, rocq_sorts, selector_piece,
    selectors_piece, sort_piece,
};
use crate::document::{
    classical_piece, comment_piece, has_parameter, indented_piece, only_if, parameter_piece,
    required_piece, rocq_body, rocq_classical, rocq_file, rocq_header, rocq_notes,
    rocq_parameters, rocq_prelude, rocq_project, rocq_query, rocq_result, step_piece,
    symbol_piece, ClassicalModuleFamily,
};
use crate::steps::{
    argument_piece, conclusion_of, hypothesis_texts, implication, needs_oracle, oracle_piece,
    premises, proof_of, proved, rocq_oracle, rocq_oracle_name, rocq_oracles, rocq_step, script,
    statement, step_name, theorem,
};
use crate::symbols::{
    absorb, formulas_unmapped, formulas_vars, free_vars, is_known, is_unmapped, lemma_absorb,
    lemma_absorb_concat, needs_integers, needs_reals, needs_sort, needs_theory, sort_declared,
    step_mentions, step_unmapped, step_vars, steps_unmapped, steps_vars, term_unmapped, unmapped,
    uses_sort, var_entries, var_entry, vars_mention,
};
use crate::term::{
    builtin_name, is_applied, rocq_constant, rocq_infix, rocq_sort_name, rocq_term, rocq_term_in,
    rocq_type, rocq_variable, sort_in, type_mentions, word_in, words_in, Term, TermNode, Type, Var,
};
use crate::text::{
    decimal_text, digit, has_word, is_break, is_numeral, lemma_word_ends, lemma_word_length,
    lines_of, occurs, pieces, word_length, words_of,
};

verus! {

/// What stands in the first part of a text stands in the text.
pub broadcast proof fn lemma_occurs_first(needle: Seq<char>, a: Seq<char>, b: Seq<char>)
    requires
        occurs(needle, a),
    ensures
        #[trigger] occurs(needle, a + b),
{
    let (before, after) = choose|before: Seq<char>, after: Seq<char>|
        a == #[trigger] (before + needle + after);
    assert(a + b =~= before + needle + (after + b));
}

/// What stands in the second part of a text stands in the text.
pub broadcast proof fn lemma_occurs_second(needle: Seq<char>, a: Seq<char>, b: Seq<char>)
    requires
        occurs(needle, b),
    ensures
        #[trigger] occurs(needle, a + b),
{
    let (before, after) = choose|before: Seq<char>, after: Seq<char>|
        b == #[trigger] (before + needle + after);
    assert(a + b =~= (a + before) + needle + after);
}

/// A text stands in itself.
pub broadcast proof fn lemma_occurs_self(text: Seq<char>)
    ensures
        #[trigger] occurs(text, text),
{
    let none = Seq::<char>::empty();
    assert(text =~= none + text + none);
}

broadcast group group_occurs {
    lemma_occurs_first,
    lemma_occurs_second,
    lemma_occurs_self,
}

/// Each piece stands in the concatenation.
pub proof fn lemma_piece_occurs(n: nat, piece: spec_fn(int) -> Seq<char>, i: int)
    requires
        0 <= i < n,
    ensures
        occurs(piece(i), pieces(n, piece)),
    decreases n,
{
    broadcast use group_occurs;

    if i < n - 1 {
        lemma_piece_occurs((n - 1) as nat, piece, i);
    }
}

/// What stands in a part of a text that itself stands in a third stands there too.
pub proof fn lemma_occurs_trans(needle: Seq<char>, part: Seq<char>, text: Seq<char>)
    requires
        occurs(needle, part),
        occurs(part, text),
    ensures
        occurs(needle, text),
{
    broadcast use group_occurs;

    let (before, after) = choose|before: Seq<char>, after: Seq<char>|
        text == #[trigger] (before + part + after);
    assert(occurs(needle, before + part));
    assert(occurs(needle, before + part + after));
}

/// The file holds the body of the certificate verbatim: what is searched for uses of classical
/// axioms is what is emitted.
pub proof fn file_holds_its_body(cert: Certificate, families: Seq<ClassicalModuleFamily>)
    ensures
        occurs(rocq_body(cert), rocq_file(cert, families)),
{
    broadcast use group_occurs;

}

proof fn lemma_prefix_concat(first: Seq<char>, a: Seq<char>, b: Seq<char>)
    requires
        first.is_prefix_of(a),
    ensures
        first.is_prefix_of(a + b),
{
    assert((a + b).take(first.len() as int) =~= a.take(first.len() as int));
}

proof fn lemma_own_prefix(first: Seq<char>, b: Seq<char>)
    ensures
        first.is_prefix_of(first + b),
{
    assert((first + b).take(first.len() as int) =~= first);
}

proof fn lemma_own_suffix(a: Seq<char>, last: Seq<char>)
    ensures
        last.is_suffix_of(a + last),
{
    assert((a + last).skip(a.len() as int) =~= last);
}

/// Every file opens with the line that names its origin and ends with the query for the
/// assumptions of its result.
pub proof fn file_is_framed(cert: Certificate, families: Seq<ClassicalModuleFamily>)
    ensures
        "(* Generated by adsmt-emit-rocq (Rocq/Coq reflection, Ltac2) *)\n"@.is_prefix_of(
            rocq_file(cert, families),
        ),
        "Print Assumptions AdsmtCert.result.\n"@.is_suffix_of(rocq_file(cert, families)),
{
    let first = "(* Generated by adsmt-emit-rocq (Rocq/Coq reflection, Ltac2) *)\n"@;
    let second = "(* One Parameter per free term variable, one decl per cert step *)\n"@;
    let third = "(* Target logic: Rocq/Coq `Prop` with Stdlib.Logic + Ltac2. *)\n"@;
    let fourth = "(* Build declaration - write this next to the file as `_CoqProject`:\n"@;
    let project = pieces(lines_of(rocq_project()).len(), indented_piece(lines_of(rocq_project())));
    lemma_own_prefix(first, second);
    lemma_prefix_concat(first, first + second, third);
    lemma_prefix_concat(first, first + second + third, fourth);
    lemma_prefix_concat(first, first + second + third + fourth, project);
    lemma_prefix_concat(first, first + second + third + fourth + project, "*)\n"@);
    let header = rocq_header();
    let prelude = rocq_prelude(cert);
    let classical = rocq_classical(families);
    let body = rocq_body(cert);
    lemma_prefix_concat(first, header, prelude);
    lemma_prefix_concat(first, header + prelude, classical);
    lemma_prefix_concat(first, header + prelude + classical, body);
    lemma_prefix_concat(first, header + prelude + classical + body, rocq_query());
    let text = header + prelude + classical + body;
    let note = "\n(* Trust surface: the `adsmt_s*` oracles, plus the axioms the\nDECLARATION context introduces (uninterpreted sorts/functions and\ndatatype selectors). Nothing else may appear. *)\n"@;
    let last = "Print Assumptions AdsmtCert.result.\n"@;
    lemma_concat_associative(text, note, last);
    lemma_own_suffix(text + note, last);
}

/// The build declaration names the file and the Ltac2 dependency, and travels with the file.
pub proof fn the_build_declaration_names_the_file_and_ltac2(
    cert: Certificate,
    families: Seq<ClassicalModuleFamily>,
    i: int,
)
    requires
        0 <= i < lines_of(rocq_project()).len(),
    ensures
        occurs("Ltac2"@, rocq_project()),
        "AdsmtCert.v\n"@.is_suffix_of(rocq_project()),
        occurs("     "@ + lines_of(rocq_project())[i] + "\n"@, rocq_file(cert, families)),
{
    broadcast use group_occurs;

    reveal_strlit("Ltac2");
    reveal_strlit("# depends on Ltac2 (with Rocq since 8.10)\n");
    let line = "# depends on Ltac2 (with Rocq since 8.10)\n"@;
    assert(line =~= line.take(13) + "Ltac2"@ + line.skip(18));
    assert(occurs("Ltac2"@, line));
    let last = "AdsmtCert.v\n"@;
    assert(last =~= rocq_project().skip(rocq_project().len() - last.len()));
    let lines = lines_of(rocq_project());
    lemma_piece_occurs(lines.len(), indented_piece(lines), i);
    assert(occurs(indented_piece(lines)(i), rocq_header()));
}

/// The prelude before it sets the proof mode.
spec fn before_mode(cert: Certificate) -> Seq<char> {
    "From Stdlib Require Import Logic.\n"@ + only_if(
        needs_integers(cert),
        "From Stdlib Require Import ZArith.\n"@,
    ) + only_if(needs_reals(cert), "From Stdlib Require Import Reals.\n"@) + pieces(
        cert.signature.required_imports@.len(),
        required_piece(cert.signature.required_imports@),
    ) + "From Ltac2 Require Import Ltac2.\n"@
}

/// The body after its module is opened.
spec fn in_module(cert: Certificate) -> Seq<char> {
    rocq_declarations(cert.signature) + rocq_parameters(cert) + rocq_oracles(cert)
        + "Section Proof.\n\n"@ + pieces(cert.steps@.len(), step_piece(cert)) + rocq_result(cert)
        + "\nEnd Proof.\n"@ + "\nEnd AdsmtCert.\n"@
}

proof fn lemma_body_opens_module(cert: Certificate)
    ensures
        rocq_body(cert) == rocq_notes(cert) + "Module AdsmtCert.\n\n"@ + in_module(cert),
{
    let opening = rocq_notes(cert) + "Module AdsmtCert.\n\n"@;
    let d = rocq_declarations(cert.signature);
    let p = rocq_parameters(cert);
    let o = rocq_oracles(cert);
    let section = "Section Proof.\n\n"@;
    let steps = pieces(cert.steps@.len(), step_piece(cert));
    let result = rocq_result(cert);
    let end = "\nEnd Proof.\n"@;
    let close = "\nEnd AdsmtCert.\n"@;
    lemma_concat_associative(opening, d, p);
    lemma_concat_associative(opening, d + p, o);
    lemma_concat_associative(opening, d + p + o, section);
    lemma_concat_associative(opening, d + p + o + section, steps);
    lemma_concat_associative(opening, d + p + o + section + steps, result);
    lemma_concat_associative(opening, d + p + o + section + steps + result, end);
    lemma_concat_associative(opening, d + p + o + section + steps + result + end, close);
}

proof fn lemma_regroup(
    header: Seq<char>,
    opening: Seq<char>,
    mode: Seq<char>,
    scope: Seq<char>,
    imports: Seq<char>,
    blank: Seq<char>,
    notes: Seq<char>,
    module: Seq<char>,
    inside: Seq<char>,
    query: Seq<char>,
)
    ensures
        header + (opening + mode + scope) + (imports + blank) + (notes + module + inside) + query
            == (header + opening) + mode + (scope + imports + blank + notes) + module + (inside
            + query),
{
    let start = header + opening + mode;
    let middle = scope + imports + blank;
    lemma_concat_associative(header, opening + mode, scope);
    lemma_concat_associative(header, opening, mode);
    assert(header + (opening + mode + scope) == start + scope);
    lemma_concat_associative(start, scope, imports + blank);
    lemma_concat_associative(scope, imports, blank);
    assert(start + scope + (imports + blank) == start + middle);
    lemma_concat_associative(start + middle, notes + module, inside);
    lemma_concat_associative(start + middle, notes, module);
    lemma_concat_associative(start, middle, notes);
    assert(start + middle + (notes + module + inside) == start + (middle + notes) + module
        + inside);
    lemma_concat_associative(start + (middle + notes) + module, inside, query);
}

/// Every file makes Ltac2 the language of its proofs, before its module opens. The imports of the
/// classical families stand between the two, in the order in which they were resolved.
pub proof fn classical_imports_stand_between_prelude_and_module(
    cert: Certificate,
    families: Seq<ClassicalModuleFamily>,
)
    ensures
        exists|before: Seq<char>, between: Seq<char>, after: Seq<char>|
            {
                &&& rocq_file(cert, families) == #[trigger] (before
                    + "Set Default Proof Mode \"Ltac2\".\n"@ + between + "Module AdsmtCert.\n\n"@
                    + after)
                &&& occurs(pieces(families.len(), classical_piece(families)), between)
            },
        forall|i: int|
            0 <= i < families.len() && (#[trigger] families[i]).import_line is Some ==> occurs(
                families[i].import_line->0@ + "\n"@,
                pieces(families.len(), classical_piece(families)),
            ),
{
    broadcast use group_occurs;

    let mode = "Set Default Proof Mode \"Ltac2\".\n"@;
    let module = "Module AdsmtCert.\n\n"@;
    let scope = only_if(needs_integers(cert), "Open Scope Z_scope.\n"@);
    let imports = pieces(families.len(), classical_piece(families));
    let before = rocq_header() + before_mode(cert);
    let between = scope + imports + "\n"@ + rocq_notes(cert);
    let after = in_module(cert) + rocq_query();
    lemma_body_opens_module(cert);
    lemma_regroup(
        rocq_header(),
        before_mode(cert),
        mode,
        scope,
        imports,
        "\n"@,
        rocq_notes(cert),
        module,
        in_module(cert),
        rocq_query(),
    );
    assert(rocq_file(cert, families) == before + mode + between + module + after);
    assert(occurs(imports, between));
    assert forall|i: int|
        0 <= i < families.len() && (#[trigger] families[i]).import_line is Some implies occurs(
        families[i].import_line->0@ + "\n"@,
        imports,
    ) by {
        lemma_piece_occurs(families.len(), classical_piece(families), i);
    }
}

/// The file up to its section.
spec fn before_section(cert: Certificate, families: Seq<ClassicalModuleFamily>) -> Seq<char> {
    rocq_header() + rocq_prelude(cert) + rocq_classical(families) + (rocq_notes(cert)
        + "Module AdsmtCert.\n\n"@ + rocq_declarations(cert.signature) + rocq_parameters(cert)
        + rocq_oracles(cert))
}

/// What stands in the section: the steps, then the result.
spec fn in_section(cert: Certificate) -> Seq<char> {
    pieces(cert.steps@.len(), step_piece(cert)) + rocq_result(cert)
}

proof fn lemma_file_has_section(cert: Certificate, families: Seq<ClassicalModuleFamily>)
    ensures
        rocq_file(cert, families) == before_section(cert, families) + "Section Proof.\n\n"@
            + in_section(cert) + "\nEnd Proof.\n"@ + ("\nEnd AdsmtCert.\n"@ + rocq_query()),
{
    let start = rocq_header() + rocq_prelude(cert) + rocq_classical(families);
    let opening = rocq_notes(cert) + "Module AdsmtCert.\n\n"@ + rocq_declarations(cert.signature)
        + rocq_parameters(cert) + rocq_oracles(cert);
    let section = "Section Proof.\n\n"@;
    let steps = pieces(cert.steps@.len(), step_piece(cert));
    let result = rocq_result(cert);
    let inside = in_section(cert);
    let end = "\nEnd Proof.\n"@;
    let close = "\nEnd AdsmtCert.\n"@;
    lemma_concat_associative(opening + section, steps, result);
    assert(rocq_body(cert) == opening + section + inside + end + close);
    lemma_concat_associative(start, opening + section + inside + end, close);
    lemma_concat_associative(start, opening + section + inside, end);
    lemma_concat_associative(start, opening + section, inside);
    lemma_concat_associative(start, opening, section);
    lemma_concat_associative(start + opening + section + inside + end, close, rocq_query());
}

/// Every step of the certificate stands in the file, inside the section: closing it discharges the
/// hypotheses among them.
pub proof fn every_step_stands_in_the_section(
    cert: Certificate,
    families: Seq<ClassicalModuleFamily>,
    i: int,
)
    requires
        0 <= i < cert.steps@.len(),
    ensures
        exists|before: Seq<char>, inside: Seq<char>, after: Seq<char>|
            {
                &&& rocq_file(cert, families) == #[trigger] (before + "Section Proof.\n\n"@
                    + inside + "\nEnd Proof.\n"@ + after)
                &&& occurs(rocq_step(cert, cert.steps@[i]), inside)
            },
{
    broadcast use group_occurs;

    lemma_file_has_section(cert, families);
    lemma_piece_occurs(cert.steps@.len(), step_piece(cert), i);
    assert(occurs(rocq_step(cert, cert.steps@[i]), in_section(cert)));
}

/// A step inside the section is a hypothesis if it is an assumption, and otherwise a theorem under
/// its own name whose proof is complete. None is an axiom.
pub proof fn a_step_is_a_hypothesis_or_a_proved_theorem(cert: Certificate, step: Step)
    ensures
        step.body is Assume ==> ("Hypothesis "@ + step_name(step.id) + " : "@).is_prefix_of(
            rocq_step(cert, step),
        ),
        !(step.body is Assume) ==> theorem(
            step_name(step.id),
            statement(cert.signature, step),
            script(cert, step),
        ).is_prefix_of(rocq_step(cert, step)),
        !"Axiom "@.is_prefix_of(rocq_step(cert, step)),
{
    reveal_strlit("Hypothesis ");
    reveal_strlit("Theorem ");
    reveal_strlit("Axiom ");
    let text = rocq_step(cert, step);
    if step.body is Assume {
        let opening = "Hypothesis "@ + step_name(step.id) + " : "@;
        assert(opening =~= text.take(opening.len() as int));
        assert(text[0] == 'H');
    } else {
        let opening = theorem(
            step_name(step.id),
            statement(cert.signature, step),
            script(cert, step),
        );
        assert(opening =~= text.take(opening.len() as int));
        assert(text[0] == 'T');
    }
    assert("Axiom "@[0] == 'A');
}

/// The conclusion of the certificate is exposed as the theorem `result`, proved by the concluding
/// step, inside the section and after every step.
pub proof fn the_conclusion_is_exposed_as_the_result(
    cert: Certificate,
    families: Seq<ClassicalModuleFamily>,
)
    requires
        cert.final_sequent is Some,
    ensures
        exists|before: Seq<char>, after: Seq<char>|
            rocq_file(cert, families) == #[trigger] (before + "Section Proof.\n\n"@ + (pieces(
                cert.steps@.len(),
                step_piece(cert),
            ) + ("\n"@ + theorem(
                "result"@,
                rocq_term(cert.signature, cert.final_sequent->0.concl.term),
                "exact "@ + step_name(cert.conclusion) + "."@,
            ) + "\n"@)) + "\nEnd Proof.\n"@ + after),
{
    reveal_strlit("\n");
    reveal_strlit(".");
    reveal_strlit("result");
    reveal_strlit("Theorem ");
    reveal_strlit(" : ");
    reveal_strlit("exact ");
    reveal_strlit(" Qed.");
    reveal_strlit(".\nProof. ");
    reveal_strlit(".\nProof. exact ");
    reveal_strlit(". Qed.\n");
    reveal_strlit("\nTheorem result : ");
    let concl = rocq_term(cert.signature, cert.final_sequent->0.concl.term);
    let name = step_name(cert.conclusion);
    let shown = theorem("result"@, concl, "exact "@ + name + "."@);
    assert("\nTheorem result : "@ =~= "\n"@ + "Theorem "@ + "result"@ + " : "@);
    assert(".\nProof. exact "@ =~= ".\nProof. "@ + "exact "@);
    assert(". Qed.\n"@ =~= "."@ + " Qed."@ + "\n"@);
    assert("\n"@ + shown + "\n"@ =~= ("\n"@ + "Theorem "@ + "result"@ + " : "@) + concl
        + (".\nProof. "@ + "exact "@) + name + ("."@ + " Qed."@ + "\n"@));
    assert(rocq_result(cert) == "\n"@ + shown + "\n"@);
    lemma_file_has_section(cert, families);
}

/// A decision of a theory solver that rests on a step of the certificate is stated as an
/// implication, never as the bare conclusion. As an axiom or, where the user supplied a tactic, as
/// a theorem that Rocq checks, it states the same proposition.
pub proof fn a_theory_oracle_is_an_implication(cert: Certificate, step: Step)
    requires
        step.body is Theory,
        premises(cert.signature, cert.steps@, step.body->parents@).len() > 0,
    ensures
        ({
            let prems = premises(cert.signature, cert.steps@, step.body->parents@);
            let concl = rocq_term(cert.signature, step.result.concl.term);
            let prop = prems[0] + " -> "@ + implication(prems.skip(1), concl);
            let note = "(* theory `"@ + step.body->Theory_name@ + "`; witness: "@
                + step.body->witness@ + " *)\n"@;
            rocq_oracle(cert, step) == (match step.body->tactic {
                None => note + "Axiom "@ + rocq_oracle_name(step) + " : "@ + prop + ".\n"@,
                Some(tac) => note + "(* user tactic hint (replaces the oracle) *)\n"@ + theorem(
                    rocq_oracle_name(step),
                    prop,
                    tac@,
                ) + "\n"@,
            })
        }),
{
    reveal_strlit(" Qed.\n");
    reveal_strlit(" Qed.");
    reveal_strlit("\n");
    assert(" Qed.\n"@ =~= " Qed."@ + "\n"@);
    let prems = premises(cert.signature, cert.steps@, step.body->parents@);
    let concl = rocq_term(cert.signature, step.result.concl.term);
    let prop = prems[0] + " -> "@ + implication(prems.skip(1), concl);
    let name = rocq_oracle_name(step);
    let note = "(* theory `"@ + step.body->Theory_name@ + "`; witness: "@ + step.body->witness@
        + " *)\n"@;
    let hint = "(* user tactic hint (replaces the oracle) *)\n"@;
    assert(implication(prems, concl) == prop);
    if let Some(tac) = step.body->tactic {
        assert(rocq_oracle(cert, step) == note + hint + "Theorem "@ + name + " : "@ + prop
            + ".\nProof. "@ + tac@ + " Qed.\n"@);
        assert(note + hint + theorem(name, prop, tac@) + "\n"@ =~= note + hint + "Theorem "@ + name
            + " : "@ + prop + ".\nProof. "@ + tac@ + (" Qed."@ + "\n"@));
    }
}

/// A type-class instance under hypotheses is stated as an implication from them, never as the bare
/// conclusion.
pub proof fn an_instance_oracle_is_an_implication(cert: Certificate, step: Step)
    requires
        step.body is Instance,
        step.result.hyps@.len() > 0,
    ensures
        ({
            let hyps = hypothesis_texts(cert.signature, step.result.hyps@);
            let concl = rocq_term(cert.signature, step.result.concl.term);
            rocq_oracle(cert, step) == "(* type-class instance for `"@ + step.body->relation@
                + "` *)\n"@ + "Axiom "@ + rocq_oracle_name(step) + " : "@ + (hyps[0] + " -> "@
                + implication(hyps.skip(1), concl)) + ".\n"@
        }),
{
}

proof fn lemma_proof_of(sig: Signature, steps: Seq<Step>, prop: Seq<char>, j: int)
    requires
        0 <= j < steps.len(),
        proved(sig, steps[j]) == prop,
    ensures
        exists|m: int|
            0 <= m <= j && proof_of(sig, steps, prop) == Some(steps[m].id) && proved(
                sig,
                #[trigger] steps[m],
            ) == prop,
    decreases steps.len(),
{
    if proved(sig, steps[0]) == prop {
        assert(proof_of(sig, steps, prop) == Some(steps[0].id));
    } else {
        let rest = steps.skip(1);
        assert(rest[j - 1] == steps[j]);
        lemma_proof_of(sig, rest, prop, j - 1);
        let m = choose|m: int|
            0 <= m <= j - 1 && proof_of(sig, rest, prop) == Some(rest[m].id) && proved(
                sig,
                #[trigger] rest[m],
            ) == prop;
        assert(steps[m + 1] == rest[m]);
    }
}

/// The theorem of a type-class instance applies the oracle to one argument per hypothesis. Where a
/// step proves the hypothesis, the argument is such a step, and none that comes later.
pub proof fn an_instance_is_applied_to_proofs_of_its_hypotheses(
    cert: Certificate,
    step: Step,
    i: int,
    j: int,
)
    requires
        step.body is Instance,
        0 <= i < step.result.hyps@.len(),
        0 <= j < cert.steps@.len(),
        proved(cert.signature, cert.steps@[j]) == rocq_term(
            cert.signature,
            step.result.hyps@[i].term,
        ),
    ensures
        ({
            let hyps = hypothesis_texts(cert.signature, step.result.hyps@);
            &&& script(cert, step) == "exact ("@ + rocq_oracle_name(step) + pieces(
                hyps.len(),
                argument_piece(cert, hyps),
            ) + ")."@
            &&& exists|m: int|
                0 <= m <= j && argument_piece(cert, hyps)(i) == " "@ + step_name(
                    cert.steps@[m].id,
                ) && proved(cert.signature, #[trigger] cert.steps@[m]) == hyps[i]
        }),
{
    let prop = hypothesis_texts(cert.signature, step.result.hyps@)[i];
    lemma_proof_of(cert.signature, cert.steps@, prop, j);
}

/// Every datatype of the certificate stands in the file as an inductive type, and each of its
/// constructors in that declaration.
pub proof fn every_datatype_is_declared(
    cert: Certificate,
    families: Seq<ClassicalModuleFamily>,
    k: int,
)
    requires
        0 <= k < cert.signature.datatypes@.len(),
    ensures
        occurs(
            rocq_datatype(cert.signature, cert.signature.datatypes@[k]),
            rocq_file(cert, families),
        ),
        occurs(
            "Inductive "@ + cert.signature.datatypes@[k].sort_name@,
            rocq_file(cert, families),
        ),
        forall|i: int|
            0 <= i < cert.signature.datatypes@[k].constructors@.len() ==> occurs(
                "  | "@ + (#[trigger] cert.signature.datatypes@[k].constructors@[i])@ + " : "@,
                rocq_datatype(cert.signature, cert.signature.datatypes@[k]),
            ),
{
    broadcast use group_occurs;

    let sig = cert.signature;
    let d = sig.datatypes@[k];
    lemma_piece_occurs(sig.datatypes@.len(), datatype_piece(sig), k);
    assert(occurs(rocq_datatype(sig, d), rocq_declarations(sig)));
    assert(occurs(rocq_datatype(sig, d), rocq_body(cert)));
    assert(occurs("Inductive "@ + d.sort_name@, rocq_datatype(sig, d)));
    lemma_occurs_trans(
        "Inductive "@ + d.sort_name@,
        rocq_datatype(sig, d),
        rocq_file(cert, families),
    );
    assert forall|i: int| 0 <= i < d.constructors@.len() implies occurs(
        "  | "@ + (#[trigger] d.constructors@[i])@ + " : "@,
        rocq_datatype(sig, d),
    ) by {
        let line = "  | "@ + d.constructors@[i]@ + " : "@;
        lemma_piece_occurs(d.constructors@.len(), constructor_piece(sig, d), i);
        lemma_constructor_line(sig, d, i);
        let all = pieces(d.constructors@.len(), constructor_piece(sig, d));
        lemma_occurs_trans(line, constructor_piece(sig, d)(i), all);
        assert(occurs(line, rocq_datatype(sig, d)));
    }
}

proof fn lemma_constructor_line(sig: Signature, d: DatatypeDecl, i: int)
    ensures
        occurs("  | "@ + d.constructors@[i]@ + " : "@, constructor_piece(sig, d)(i)),
{
    broadcast use group_occurs;

    let ctor = d.constructors@[i]@;
    let line = "  | "@ + ctor + " : "@;
    let arity = constructor_arity(d, i);
    if !(i < d.field_sorts@.len() && d.field_sorts@[i]@.len() == arity) && arity != 0 {
        let note = "  (* INCOMPLETE: `"@ + ctor + "` takes "@ + decimal_text(arity)
            + " argument(s) whose sorts the certificate did not carry *)\n"@;
        lemma_concat_associative(note, "  | "@, ctor);
        lemma_concat_associative(note, "  | "@ + ctor, " : "@);
        assert(occurs(line, note + line));
    }
}

/// Every sort of the certificate that is not built in and not mapped to one of Rocq's stands in
/// the file as a declaration: as an inductive type where a datatype declares it, and otherwise as
/// a parameter, non-empty where it takes no arguments.
pub proof fn every_sort_is_declared(
    cert: Certificate,
    families: Seq<ClassicalModuleFamily>,
    i: int,
)
    requires
        0 <= i < cert.signature.sorts@.len(),
        !cert.signature.sorts@[i].builtin,
        cert.signature.rocq_name(cert.signature.sorts@[i].name@)
            == cert.signature.sorts@[i].name@,
    ensures
        is_datatype(cert.signature, cert.signature.sorts@[i].name@) ==> occurs(
            "Inductive "@ + cert.signature.sorts@[i].name@,
            rocq_file(cert, families),
        ),
        !is_datatype(cert.signature, cert.signature.sorts@[i].name@) ==> occurs(
            rocq_sort(cert.signature.sorts@[i]),
            rocq_file(cert, families),
        ),
{
    broadcast use group_occurs;

    let sig = cert.signature;
    let s = sig.sorts@[i];
    if is_datatype(sig, s.name@) {
        let k = choose|k: int|
            0 <= k < sig.datatypes@.len() && #[trigger] sig.datatypes@[k].sort_name@ == s.name@;
        every_datatype_is_declared(cert, families, k);
    } else {
        assert(is_user_sort(sig, sig.sorts@[i]));
        lemma_piece_occurs(sig.sorts@.len(), sort_piece(sig), i);
        assert(occurs(rocq_sort(s), rocq_sorts(sig)));
        assert(occurs(rocq_sort(s), rocq_declarations(sig)));
        assert(occurs(rocq_sort(s), rocq_body(cert)));
    }
}

/// A sort that is built in, that a datatype declares or that the user maps to one of Rocq's is not
/// declared as a parameter.
pub proof fn a_sort_that_is_there_is_no_parameter(sig: Signature, i: int)
    requires
        0 <= i < sig.sorts@.len(),
        sig.sorts@[i].builtin || is_datatype(sig, sig.sorts@[i].name@) || sig.rocq_name(
            sig.sorts@[i].name@,
        ) != sig.sorts@[i].name@,
    ensures
        sort_piece(sig)(i) == Seq::<char>::empty(),
{
}

/// The variable is free in a hypothesis or in the conclusion of the step.
pub open spec fn is_free_in(step: Step, v: Var) -> bool {
    ||| exists|j: int, k: int|
        0 <= j < step.result.hyps@.len() && 0 <= k < step.result.hyps@[j].free_vars@.len()
            && #[trigger] step.result.hyps@[j].free_vars@[k] == v
    ||| exists|k: int|
        0 <= k < step.result.concl.free_vars@.len()
            && #[trigger] step.result.concl.free_vars@[k] == v
}

proof fn lemma_contains_concat<A>(a: Seq<A>, b: Seq<A>, e: A)
    ensures
        (a + b).contains(e) == (a.contains(e) || b.contains(e)),
{
    if a.contains(e) {
        let k = choose|k: int| 0 <= k < a.len() && a[k] == e;
        assert((a + b)[k] == e);
    }
    if b.contains(e) {
        let k = choose|k: int| 0 <= k < b.len() && b[k] == e;
        assert((a + b)[a.len() + k] == e);
    }
    if (a + b).contains(e) {
        let k = choose|k: int| 0 <= k < (a + b).len() && (a + b)[k] == e;
        if k < a.len() {
            assert(a[k] == e);
        } else {
            assert(b[k - a.len()] == e);
        }
    }
}

proof fn lemma_hyp_vars(sig: Signature, hyps: Seq<Formula>, j: int, k: int)
    requires
        0 <= j < hyps.len(),
        0 <= k < hyps[j].free_vars@.len(),
    ensures
        formulas_vars(sig, hyps).contains(var_entry(sig, hyps[j].free_vars@[k])),
    decreases hyps.len(),
{
    let e = var_entry(sig, hyps[j].free_vars@[k]);
    let init = formulas_vars(sig, hyps.drop_last());
    let last = var_entries(sig, hyps.last().free_vars@);
    lemma_contains_concat(init, last, e);
    if j == hyps.len() - 1 {
        assert(last[k] == e);
    } else {
        lemma_hyp_vars(sig, hyps.drop_last(), j, k);
    }
}

pub proof fn lemma_step_vars(sig: Signature, steps: Seq<Step>, i: int, v: Var)
    requires
        0 <= i < steps.len(),
        is_free_in(steps[i], v),
    ensures
        steps_vars(sig, steps).contains(var_entry(sig, v)),
    decreases steps.len(),
{
    let e = var_entry(sig, v);
    let init = steps_vars(sig, steps.drop_last());
    let last = steps.last();
    lemma_contains_concat(init, step_vars(sig, last), e);
    if i == steps.len() - 1 {
        let concl = var_entries(sig, last.result.concl.free_vars@);
        lemma_contains_concat(formulas_vars(sig, last.result.hyps@), concl, e);
        if exists|k: int|
            0 <= k < last.result.concl.free_vars@.len()
                && #[trigger] last.result.concl.free_vars@[k] == v {
            let k = choose|k: int|
                0 <= k < last.result.concl.free_vars@.len()
                    && #[trigger] last.result.concl.free_vars@[k] == v;
            assert(concl[k] == e);
        } else {
            let (j, k) = choose|j: int, k: int|
                0 <= j < last.result.hyps@.len() && 0 <= k < last.result.hyps@[j].free_vars@.len()
                    && #[trigger] last.result.hyps@[j].free_vars@[k] == v;
            lemma_hyp_vars(sig, last.result.hyps@, j, k);
        }
    } else {
        lemma_step_vars(sig, steps.drop_last(), i, v);
    }
}

/// Every variable that is free in a sequent of the certificate is accounted for: the declaration
/// context declares its name, or the file declares it as a parameter of its type.
pub proof fn every_free_variable_is_declared(
    cert: Certificate,
    families: Seq<ClassicalModuleFamily>,
    i: int,
    v: Var,
)
    requires
        0 <= i < cert.steps@.len(),
        is_free_in(cert.steps@[i], v),
    ensures
        declares(cert.signature, v.name@) || occurs(
            "Parameter "@ + v.name@ + " : "@ + rocq_type(cert.signature, v.ty) + ".\n"@,
            rocq_file(cert, families),
        ),
{
    broadcast use group_occurs;

    lemma_step_vars(cert.signature, cert.steps@, i, v);
    lemma_absorb(Seq::empty(), steps_vars(cert.signature, cert.steps@));
    assert(free_vars(cert).contains(var_entry(cert.signature, v)));
    let entry = var_entry(cert.signature, v);
    let k = choose|k: int| 0 <= k < free_vars(cert).len() && free_vars(cert)[k] == entry;
    if !declares(cert.signature, v.name@) {
        let line = "Parameter "@ + v.name@ + " : "@ + rocq_type(cert.signature, v.ty) + ".\n"@;
        assert(!declares(cert.signature, free_vars(cert)[k].0));
        assert(has_parameter(cert));
        lemma_piece_occurs(free_vars(cert).len(), parameter_piece(cert), k);
        assert(parameter_piece(cert)(k) == line);
        assert(occurs(line, rocq_parameters(cert)));
        assert(occurs(line, rocq_body(cert)));
    }
}

/// The variable occurs in the term outside every abstraction over it.
pub open spec fn is_unbound(t: Term, v: Var) -> bool
    decreases t,
{
    match t.node {
        TermNode::Var(x) => x == v,
        TermNode::Const(_) => false,
        TermNode::App(f, x) => is_unbound(*f, v) || is_unbound(*x, v),
        TermNode::Lam(x, body) => x != v && is_unbound(*body, v),
    }
}

/// The formula lists exactly the variables that are unbound in its term.
pub open spec fn lists_its_variables(formula: Formula) -> bool {
    forall|v: Var| #[trigger] formula.free_vars@.contains(v) == is_unbound(formula.term, v)
}

/// The variable is unbound in a hypothesis or in the conclusion of the step.
pub open spec fn is_unbound_in(step: Step, v: Var) -> bool {
    ||| exists|j: int|
        0 <= j < step.result.hyps@.len() && is_unbound((#[trigger] step.result.hyps@[j]).term, v)
    ||| is_unbound(step.result.concl.term, v)
}

/// Where the formulas of a step list their variables, every variable that is unbound in one of
/// them is accounted for: the declaration context declares its name, or the file declares it as a
/// parameter of its type.
pub proof fn every_unbound_variable_is_declared(
    cert: Certificate,
    families: Seq<ClassicalModuleFamily>,
    i: int,
    v: Var,
)
    requires
        0 <= i < cert.steps@.len(),
        lists_its_variables(cert.steps@[i].result.concl),
        forall|j: int|
            0 <= j < cert.steps@[i].result.hyps@.len() ==> lists_its_variables(
                #[trigger] cert.steps@[i].result.hyps@[j],
            ),
        is_unbound_in(cert.steps@[i], v),
    ensures
        declares(cert.signature, v.name@) || occurs(
            "Parameter "@ + v.name@ + " : "@ + rocq_type(cert.signature, v.ty) + ".\n"@,
            rocq_file(cert, families),
        ),
{
    let result = cert.steps@[i].result;
    if is_unbound(result.concl.term, v) {
        assert(result.concl.free_vars@.contains(v));
    } else {
        let j = choose|j: int|
            0 <= j < result.hyps@.len() && is_unbound((#[trigger] result.hyps@[j]).term, v);
        assert(lists_its_variables(result.hyps@[j]));
        assert(result.hyps@[j].free_vars@.contains(v));
        let k = choose|k: int|
            0 <= k < result.hyps@[j].free_vars@.len() && result.hyps@[j].free_vars@[k] == v;
        assert(cert.steps@[i].result.hyps@[j].free_vars@[k] == v);
    }
    assert(is_free_in(cert.steps@[i], v));
    every_free_variable_is_declared(cert, families, i, v);
}

/// No free variable is listed twice.
pub proof fn free_variables_are_listed_once(cert: Certificate)
    ensures
        free_vars(cert).no_duplicates(),
{
    lemma_absorb(Seq::<(Seq<char>, Seq<char>)>::empty(), steps_vars(cert.signature, cert.steps@));
}

/// The constant occurs in the term.
pub open spec fn has_constant(t: Term, n: Seq<char>) -> bool
    decreases t,
{
    match t.node {
        TermNode::Var(_) => false,
        TermNode::Const(c) => c@ == n,
        TermNode::App(f, x) => has_constant(*f, n) || has_constant(*x, n),
        TermNode::Lam(_, body) => has_constant(*body, n),
    }
}

/// The constant occurs in a hypothesis or in the conclusion of the step.
pub open spec fn has_constant_in(step: Step, n: Seq<char>) -> bool {
    ||| exists|j: int|
        0 <= j < step.result.hyps@.len() && has_constant(
            (#[trigger] step.result.hyps@[j]).term,
            n,
        )
    ||| has_constant(step.result.concl.term, n)
}

proof fn lemma_term_unmapped(sig: Signature, t: &Term, n: Seq<char>)
    ensures
        term_unmapped(sig, *t).contains(n) == (is_unmapped(sig, n) && has_constant(*t, n)),
    decreases *t,
{
    match &t.node {
        TermNode::Var(_) => {},
        TermNode::Const(c) => {
            if is_unmapped(sig, c@) {
                assert(seq![c@][0] == c@);
            }
        },
        TermNode::App(f, x) => {
            let fun: &Term = &**f;
            let arg: &Term = &**x;
            lemma_term_unmapped(sig, fun, n);
            lemma_term_unmapped(sig, arg, n);
            lemma_contains_concat(term_unmapped(sig, *fun), term_unmapped(sig, *arg), n);
        },
        TermNode::Lam(_, body) => {
            lemma_term_unmapped(sig, &**body, n);
        },
    }
}

proof fn lemma_formulas_unmapped(sig: Signature, hyps: Seq<Formula>, n: Seq<char>)
    ensures
        formulas_unmapped(sig, hyps).contains(n) == (is_unmapped(sig, n) && exists|j: int|
            0 <= j < hyps.len() && has_constant((#[trigger] hyps[j]).term, n)),
    decreases hyps.len(),
{
    if hyps.len() > 0 {
        let init = hyps.drop_last();
        lemma_formulas_unmapped(sig, init, n);
        lemma_term_unmapped(sig, &hyps.last().term, n);
        lemma_contains_concat(formulas_unmapped(sig, init), term_unmapped(sig, hyps.last().term), n);
        if exists|j: int| 0 <= j < init.len() && has_constant((#[trigger] init[j]).term, n) {
            let j = choose|j: int| 0 <= j < init.len() && has_constant((#[trigger] init[j]).term, n);
            assert(has_constant(hyps[j].term, n));
        }
        if exists|j: int| 0 <= j < hyps.len() && has_constant((#[trigger] hyps[j]).term, n) {
            let j = choose|j: int| 0 <= j < hyps.len() && has_constant((#[trigger] hyps[j]).term, n);
            if j < init.len() {
                assert(has_constant(init[j].term, n));
            }
        }
    }
}

proof fn lemma_steps_unmapped(sig: Signature, steps: Seq<Step>, n: Seq<char>)
    ensures
        steps_unmapped(sig, steps).contains(n) == (is_unmapped(sig, n) && exists|i: int|
            0 <= i < steps.len() && has_constant_in(#[trigger] steps[i], n)),
    decreases steps.len(),
{
    if steps.len() > 0 {
        let init = steps.drop_last();
        let last = steps.last();
        lemma_steps_unmapped(sig, init, n);
        lemma_formulas_unmapped(sig, last.result.hyps@, n);
        lemma_term_unmapped(sig, &last.result.concl.term, n);
        lemma_contains_concat(
            formulas_unmapped(sig, last.result.hyps@),
            term_unmapped(sig, last.result.concl.term),
            n,
        );
        lemma_contains_concat(steps_unmapped(sig, init), step_unmapped(sig, last), n);
        assert(step_unmapped(sig, last).contains(n) == (is_unmapped(sig, n) && has_constant_in(
            last,
            n,
        )));
        if exists|i: int| 0 <= i < init.len() && has_constant_in(#[trigger] init[i], n) {
            let i = choose|i: int| 0 <= i < init.len() && has_constant_in(#[trigger] init[i], n);
            assert(has_constant_in(steps[i], n));
        }
        if exists|i: int| 0 <= i < steps.len() && has_constant_in(#[trigger] steps[i], n) {
            let i = choose|i: int| 0 <= i < steps.len() && has_constant_in(#[trigger] steps[i], n);
            if i < init.len() {
                assert(has_constant_in(init[i], n));
            } else {
                assert(steps[i] == last);
            }
        }
    }
}

/// The unmapped constants are exactly those constants of the certificate's sequents that are
/// neither known nor numeric nor functions mapped to Rocq's, each listed once.
pub proof fn unmapped_constants_are_exact(cert: Certificate)
    ensures
        unmapped(cert).no_duplicates(),
        forall|n: Seq<char>| #[trigger]
            unmapped(cert).contains(n) == (is_unmapped(cert.signature, n) && exists|i: int|
                0 <= i < cert.steps@.len() && has_constant_in(#[trigger] cert.steps@[i], n)),
{
    let none = Seq::<Seq<char>>::empty();
    lemma_absorb(none, steps_unmapped(cert.signature, cert.steps@));
    assert forall|n: Seq<char>| #[trigger]
        unmapped(cert).contains(n) == (is_unmapped(cert.signature, n) && exists|i: int|
            0 <= i < cert.steps@.len() && has_constant_in(#[trigger] cert.steps@[i], n)) by {
        lemma_steps_unmapped(cert.signature, cert.steps@, n);
        assert(unmapped(cert).contains(n) == (none.contains(n) || steps_unmapped(
            cert.signature, cert.steps@,
        ).contains(n)));
    }
}

proof fn lemma_absorb_extends<A>(seen: Seq<A>, entries: Seq<A>)
    ensures
        seen.is_prefix_of(absorb(seen, entries)),
        (forall|e: A| #[trigger] entries.contains(e) ==> seen.contains(e)) ==> absorb(seen, entries)
            == seen,
    decreases entries.len(),
{
    if entries.len() > 0 {
        let init = entries.drop_last();
        lemma_absorb_extends(seen, init);
        let before = absorb(seen, init);
        assert(before.push(entries.last()).take(seen.len() as int) =~= before.take(
            seen.len() as int,
        ));
        if forall|e: A| #[trigger] entries.contains(e) ==> seen.contains(e) {
            assert forall|e: A| #[trigger] init.contains(e) implies seen.contains(e) by {
                let k = choose|k: int| 0 <= k < init.len() && init[k] == e;
                assert(entries[k] == e);
                assert(entries.contains(e));
            }
            assert(entries[entries.len() - 1] == entries.last());
            assert(entries.contains(entries.last()));
        }
    }
}

proof fn lemma_steps_unmapped_concat(sig: Signature, first: Seq<Step>, extra: Seq<Step>)
    ensures
        steps_unmapped(sig, first + extra) == steps_unmapped(sig, first) + steps_unmapped(
            sig,
            extra,
        ),
    decreases extra.len(),
{
    if extra.len() == 0 {
        assert(first + extra =~= first);
        assert(steps_unmapped(sig, first) + Seq::<Seq<char>>::empty() =~= steps_unmapped(
            sig,
            first,
        ));
    } else {
        let init = extra.drop_last();
        lemma_steps_unmapped_concat(sig, first, init);
        assert((first + extra).drop_last() =~= first + init);
        lemma_concat_associative(
            steps_unmapped(sig, first),
            steps_unmapped(sig, init),
            step_unmapped(sig, extra.last()),
        );
    }
}

/// Appending steps to a certificate only extends the list of its unmapped constants, and leaves it
/// as it is where the new steps have no new constant.
pub proof fn appended_steps_only_extend_the_unmapped_constants(
    shorter: Certificate,
    longer: Certificate,
    extra: Seq<Step>,
)
    requires
        longer.signature == shorter.signature,
        longer.steps@ == shorter.steps@ + extra,
    ensures
        unmapped(shorter).is_prefix_of(unmapped(longer)),
        (forall|n: Seq<char>, k: int|
            0 <= k < extra.len() && #[trigger] has_constant_in(extra[k], n) ==> exists|i: int|
                0 <= i < shorter.steps@.len() && has_constant_in(
                    #[trigger] shorter.steps@[i],
                    n,
                )) ==> unmapped(longer) == unmapped(shorter),
{
    let sig = shorter.signature;
    let none = Seq::<Seq<char>>::empty();
    let first = steps_unmapped(sig, shorter.steps@);
    let added = steps_unmapped(sig, extra);
    lemma_steps_unmapped_concat(sig, shorter.steps@, extra);
    lemma_absorb_concat(none, first, added);
    lemma_absorb_extends(unmapped(shorter), added);
    if forall|n: Seq<char>, k: int|
        0 <= k < extra.len() && #[trigger] has_constant_in(extra[k], n) ==> exists|i: int|
            0 <= i < shorter.steps@.len() && has_constant_in(#[trigger] shorter.steps@[i], n) {
        unmapped_constants_are_exact(shorter);
        assert forall|n: Seq<char>| #[trigger] added.contains(n) implies unmapped(
            shorter,
        ).contains(n) by {
            lemma_steps_unmapped(sig, extra, n);
            let k = choose|k: int| 0 <= k < extra.len() && has_constant_in(#[trigger] extra[k], n);
            assert(has_constant_in(extra[k], n));
        }
    }
}

/// The head of an application chain.
pub open spec fn chain_head(t: Term) -> Term
    decreases t,
{
    match t.node {
        TermNode::App(f, _) => chain_head(*f),
        _ => t,
    }
}

/// The arguments of an application chain, in order.
pub open spec fn chain_args(t: Term) -> Seq<Term>
    decreases t,
{
    match t.node {
        TermNode::App(f, x) => chain_args(*f).push(*x),
        _ => Seq::empty(),
    }
}

/// The readings that a term carries are readings of its shape, and so for every part of it: the
/// sides of an equation are the two arguments of its application chain; the arguments of a spine
/// are those of the chain, and its head the name at the chain's head.
pub open spec fn readings_agree(t: Term) -> bool
    decreases t,
{
    &&& t.equation matches Some((lhs, rhs)) ==> chain_args(t) == seq![*lhs, *rhs]
    &&& t.spine matches Some(s) ==> {
        &&& chain_args(t) == Seq::new(s.args@.len(), |i: int| *s.args@[i])
        &&& match chain_head(t).node {
            TermNode::Var(v) => v.name@ == s.head@,
            TermNode::Const(c) => c@ == s.head@,
            _ => false,
        }
    }
    &&& match t.node {
        TermNode::App(f, x) => readings_agree(*f) && readings_agree(*x),
        TermNode::Lam(_, body) => readings_agree(*body),
        _ => true,
    }
}

/// Writing the term writes the constant verbatim.
pub open spec fn writes_verbatim(sig: Signature, t: Term, n: Seq<char>) -> bool
    decreases t,
{
    match t.equation {
        Some((lhs, rhs)) => writes_verbatim(sig, *lhs, n) || writes_verbatim(sig, *rhs, n),
        None => match t.spine {
            Some(s) if s.args@.len() == 2 && rocq_infix(s.head@) is Some => writes_verbatim(
                sig,
                *s.args@[0],
                n,
            ) || writes_verbatim(sig, *s.args@[1], n),
            Some(s) if s.args@.len() == 1 && s.head@ == "not"@ => writes_verbatim(
                sig,
                *s.args@[0],
                n,
            ),
            _ => match t.node {
                TermNode::Var(_) => false,
                TermNode::Const(c) => c@ == n && rocq_constant(sig, n) == n,
                TermNode::App(f, x) => writes_verbatim(sig, *f, n) || writes_verbatim(sig, *x, n),
                TermNode::Lam(_, body) => writes_verbatim(sig, *body, n),
            },
        },
    }
}

proof fn lemma_chain_arg(t: &Term, i: int, n: Seq<char>)
    requires
        readings_agree(*t),
        0 <= i < chain_args(*t).len(),
    ensures
        readings_agree(chain_args(*t)[i]),
        has_constant(chain_args(*t)[i], n) ==> has_constant(*t, n),
    decreases *t,
{
    if let TermNode::App(f, x) = &t.node {
        let fun: &Term = &**f;
        if i < chain_args(*fun).len() {
            lemma_chain_arg(fun, i, n);
            assert(chain_args(*t)[i] == chain_args(*fun)[i]);
        }
    }
}

proof fn lemma_written_constant(sig: Signature, t: &Term, n: Seq<char>)
    requires
        readings_agree(*t),
        writes_verbatim(sig, *t, n),
    ensures
        has_constant(*t, n),
        rocq_constant(sig, n) == n,
    decreases *t,
{
    if let Some((lhs, rhs)) = &t.equation {
        let l: &Term = &**lhs;
        let r: &Term = &**rhs;
        assert(chain_args(*t) == seq![*l, *r]);
        lemma_chain_arg(t, 0, n);
        lemma_chain_arg(t, 1, n);
        if writes_verbatim(sig, *l, n) {
            lemma_written_constant(sig, l, n);
        } else {
            lemma_written_constant(sig, r, n);
        }
    } else if t.spine is Some && t.spine->0.args@.len() == 2 && rocq_infix(
        t.spine->0.head@,
    ) is Some {
        let l: &Term = &*t.spine->0.args@[0];
        let r: &Term = &*t.spine->0.args@[1];
        lemma_chain_arg(t, 0, n);
        lemma_chain_arg(t, 1, n);
        if writes_verbatim(sig, *l, n) {
            lemma_written_constant(sig, l, n);
        } else {
            lemma_written_constant(sig, r, n);
        }
    } else if t.spine is Some && t.spine->0.args@.len() == 1 && t.spine->0.head@ == "not"@ {
        lemma_chain_arg(t, 0, n);
        lemma_written_constant(sig, &*t.spine->0.args@[0], n);
    } else {
        match &t.node {
            TermNode::App(f, x) => {
                let fun: &Term = &**f;
                let arg: &Term = &**x;
                if writes_verbatim(sig, *fun, n) {
                    lemma_written_constant(sig, fun, n);
                } else {
                    lemma_written_constant(sig, arg, n);
                }
            },
            TermNode::Lam(_, body) => lemma_written_constant(sig, &**body, n),
            _ => {},
        }
    }
}

/// Where the readings of the terms agree with their shapes, every constant that writing a sequent
/// of the certificate writes verbatim is listed as unmapped, unless it is known or numeric.
pub proof fn every_constant_written_verbatim_is_listed(cert: Certificate, i: int, n: Seq<char>)
    requires
        0 <= i < cert.steps@.len(),
        readings_agree(cert.steps@[i].result.concl.term),
        forall|j: int|
            0 <= j < cert.steps@[i].result.hyps@.len() ==> readings_agree(
                (#[trigger] cert.steps@[i].result.hyps@[j]).term,
            ),
        writes_verbatim(cert.signature, cert.steps@[i].result.concl.term, n) || exists|j: int|
            0 <= j < cert.steps@[i].result.hyps@.len() && writes_verbatim(
                cert.signature,
                (#[trigger] cert.steps@[i].result.hyps@[j]).term,
                n,
            ),
        !is_numeral(n),
        !is_known(n),
    ensures
        unmapped(cert).contains(n),
{
    let sig = cert.signature;
    let result = cert.steps@[i].result;
    if writes_verbatim(sig, result.concl.term, n) {
        lemma_written_constant(sig, &result.concl.term, n);
    } else {
        let j = choose|j: int|
            0 <= j < result.hyps@.len() && writes_verbatim(
                sig,
                (#[trigger] result.hyps@[j]).term,
                n,
            );
        lemma_written_constant(sig, &result.hyps@[j].term, n);
        assert(has_constant(result.hyps@[j].term, n));
    }
    assert(has_constant_in(cert.steps@[i], n));
    assert(is_unmapped(sig, n));
    unmapped_constants_are_exact(cert);
}

/// The file names every unmapped constant in a comment, so that the gap shows.
pub proof fn every_unmapped_constant_is_pointed_out(
    cert: Certificate,
    families: Seq<ClassicalModuleFamily>,
    n: Seq<char>,
)
    requires
        unmapped(cert).contains(n),
    ensures
        occurs(
            "(* UNMAPPED SYMBOL: `"@ + n + "` is emitted verbatim and may not parse in Rocq. *)\n"@,
            rocq_file(cert, families),
        ),
{
    broadcast use group_occurs;

    let i = choose|i: int| 0 <= i < unmapped(cert).len() && unmapped(cert)[i] == n;
    lemma_piece_occurs(unmapped(cert).len(), symbol_piece(unmapped(cert)), i);
    let note = "(* UNMAPPED SYMBOL: `"@ + n
        + "` is emitted verbatim and may not parse in Rocq. *)\n"@;
    assert(symbol_piece(unmapped(cert))(i) == note);
    assert(occurs(note, rocq_notes(cert)));
    assert(occurs(note, rocq_body(cert)));
}

proof fn lemma_decimal_nonempty(n: nat)
    ensures
        decimal_text(n).len() >= 1,
{
}

/// Two numbers are written alike only if they are the same.
pub proof fn decimal_is_injective(m: nat, n: nat)
    requires
        decimal_text(m) == decimal_text(n),
    ensures
        m == n,
    decreases m,
{
    let a = decimal_text(m);
    assert(a.last() == digit(m % 10));
    assert(a.last() == digit(n % 10));
    assert(m % 10 == n % 10);
    if m < 10 {
        if n >= 10 {
            lemma_decimal_nonempty(n / 10);
        }
    } else {
        lemma_decimal_nonempty(m / 10);
        assert(a.drop_last() =~= decimal_text(m / 10));
        assert(n >= 10);
        assert(a.drop_last() =~= decimal_text(n / 10));
        decimal_is_injective(m / 10, n / 10);
    }
}

proof fn lemma_same_tail(prefix: Seq<char>, a: Seq<char>, b: Seq<char>)
    requires
        prefix + a == prefix + b,
    ensures
        a == b,
{
    assert(a =~= (prefix + a).skip(prefix.len() as int));
    assert(b =~= (prefix + b).skip(prefix.len() as int));
}

/// Steps with different numbers have different names.
pub proof fn step_names_tell_steps_apart(a: StepId, b: StepId)
    requires
        step_name(a) == step_name(b),
    ensures
        a == b,
{
    lemma_same_tail("s"@, decimal_text(a.0 as nat), decimal_text(b.0 as nat));
    decimal_is_injective(a.0 as nat, b.0 as nat);
}

/// An oracle's name gives away the step it belongs to and whether the user supplied it. No oracle
/// has the name of a step.
pub proof fn oracle_names_tell_oracles_apart(a: Step, b: Step)
    ensures
        rocq_oracle_name(a) == rocq_oracle_name(b) ==> a.id == b.id && (a.body is Assumed <==>
            b.body is Assumed),
        rocq_oracle_name(a) != step_name(b.id),
{
    reveal_strlit("s");
    reveal_strlit("adsmt_s");
    reveal_strlit("adsmt_assumed_s");
    assert(rocq_oracle_name(a)[0] == 'a');
    assert(step_name(b.id)[0] == 's');
    assert(rocq_oracle_name(a)[6] == if a.body is Assumed {
        'a'
    } else {
        's'
    });
    assert(rocq_oracle_name(b)[6] == if b.body is Assumed {
        'a'
    } else {
        's'
    });
    if rocq_oracle_name(a) == rocq_oracle_name(b) {
        if a.body is Assumed {
            lemma_same_tail(
                "adsmt_assumed_s"@,
                decimal_text(a.id.0 as nat),
                decimal_text(b.id.0 as nat),
            );
        } else {
            lemma_same_tail("adsmt_s"@, decimal_text(a.id.0 as nat), decimal_text(b.id.0 as nat));
        }
        decimal_is_injective(a.id.0 as nat, b.id.0 as nat);
    }
}

proof fn lemma_word_split(a: Seq<char>, d: char, b: Seq<char>)
    requires
        is_break(d),
    ensures
        word_length(a + seq![d] + b) == word_length(a),
{
    let s = a + seq![d] + b;
    let k = word_length(a) as int;
    lemma_word_ends(a);
    assert forall|i: int| 0 <= i < k implies !is_break(#[trigger] s[i]) by {
        assert(s[i] == a[i]);
    }
    if k < a.len() {
        assert(s[k] == a[k]);
    } else {
        assert(s[k] == d);
    }
    lemma_word_length(s, k);
}

proof fn lemma_words_in_split(table: Seq<(String, String)>, a: Seq<char>, d: char, b: Seq<char>)
    requires
        is_break(d),
    ensures
        words_in(table, a + seq![d] + b) == words_in(table, a) + seq![d] + words_in(table, b),
    decreases a.len(),
{
    let s = a + seq![d] + b;
    let k = word_length(a) as int;
    lemma_word_split(a, d, b);
    lemma_word_ends(a);
    assert(s.take(k) =~= a.take(k));
    if k < a.len() {
        let later = a.skip(k + 1);
        assert(s.skip(k + 1) =~= later + seq![d] + b);
        lemma_words_in_split(table, later, d, b);
        let first = word_in(table, a.take(k));
        let end = seq![a[k]];
        assert(first + end + (words_in(table, later) + seq![d] + words_in(table, b)) =~= first + end
            + words_in(table, later) + seq![d] + words_in(table, b));
    } else {
        assert(a.take(k) =~= a);
        assert(s[k] == d);
        assert(s.skip(k + 1) =~= b);
    }
}

proof fn lemma_words_split(a: Seq<char>, d: char, b: Seq<char>)
    requires
        is_break(d),
    ensures
        words_of(a + seq![d] + b) == words_of(a) + words_of(b),
    decreases a.len(),
{
    let s = a + seq![d] + b;
    let k = word_length(a) as int;
    lemma_word_split(a, d, b);
    lemma_word_ends(a);
    assert(s.take(k) =~= a.take(k));
    if k < a.len() {
        let later = a.skip(k + 1);
        assert(s.skip(k + 1) =~= later + seq![d] + b);
        lemma_words_split(later, d, b);
        let first = seq![a.take(k)];
        assert(first + (words_of(later) + words_of(b)) =~= first + words_of(later) + words_of(b));
    } else {
        assert(a.take(k) =~= a);
        assert(s.skip(k + 1) =~= b);
    }
}

proof fn lemma_has_word_split(a: Seq<char>, d: char, b: Seq<char>, n: Seq<char>)
    requires
        is_break(d),
    ensures
        has_word(a + seq![d] + b, n) == (has_word(a, n) || has_word(b, n)),
{
    lemma_words_split(a, d, b);
    lemma_contains_concat(words_of(a), words_of(b), n);
}

/// A sort name of several words is mapped word by word.
pub proof fn an_applied_sort_name_is_mapped_word_by_word(a: Seq<char>, d: char, b: Seq<char>)
    requires
        is_break(d),
    ensures
        rocq_sort_name(a + seq![d] + b) == rocq_sort_name(a) + seq![d] + rocq_sort_name(b),
{
    lemma_words_in_split(Seq::empty(), a, d, b);
}

/// A sort name of one word is mapped to its built-in name.
pub proof fn a_sort_name_of_one_word_has_its_built_in_name(s: Seq<char>)
    requires
        forall|i: int| 0 <= i < s.len() ==> !is_break(#[trigger] s[i]),
    ensures
        rocq_sort_name(s) == builtin_name(s),
{
    lemma_word_length(s, s.len() as int);
}

proof fn lemma_builtin_is_a_word(word: Seq<char>)
    requires
        forall|i: int| 0 <= i < word.len() ==> !is_break(#[trigger] word[i]),
    ensures
        word_length(builtin_name(word)) == builtin_name(word).len(),
        builtin_name(word) != "Bool"@,
        builtin_name(word) != "Int"@,
        builtin_name(word) != "Real"@,
{
    reveal_strlit("Bool");
    reveal_strlit("Int");
    reveal_strlit("Real");
    reveal_strlit("Prop");
    reveal_strlit("Z");
    reveal_strlit("R");
    assert("Prop"@[0] == 'P' && "Bool"@[0] == 'B' && "Real"@[0] == 'R');
    assert("Prop"@.len() == 4 && "Int"@.len() == 3 && "Z"@.len() == 1 && "R"@.len() == 1);
    assert("Bool"@.len() == 4 && "Real"@.len() == 4);
    lemma_word_length(builtin_name(word), builtin_name(word).len() as int);
}

/// No built-in sort keeps the name that it has in SMT-LIB, alone or as a part of an applied name:
/// Rocq has none of them.
pub proof fn no_built_in_sort_keeps_its_name(s: Seq<char>)
    ensures
        !has_word(rocq_sort_name(s), "Bool"@),
        !has_word(rocq_sort_name(s), "Int"@),
        !has_word(rocq_sort_name(s), "Real"@),
    decreases s.len(),
{
    let k = word_length(s) as int;
    lemma_word_ends(s);
    let word = s.take(k);
    assert forall|i: int| 0 <= i < word.len() implies !is_break(#[trigger] word[i]) by {
        assert(word[i] == s[i]);
    }
    lemma_builtin_is_a_word(word);
    if k < s.len() {
        let later = s.skip(k + 1);
        no_built_in_sort_keeps_its_name(later);
        let first = builtin_name(word);
        lemma_has_word_split(first, s[k], rocq_sort_name(later), "Bool"@);
        lemma_has_word_split(first, s[k], rocq_sort_name(later), "Int"@);
        lemma_has_word_split(first, s[k], rocq_sort_name(later), "Real"@);
    } else {
        assert(word =~= s);
    }
}

/// How a type is spelled as a sort name: an applied constructor before its argument, which is
/// parenthesised where it is built as an application itself.
pub open spec fn spelling(ty: Type) -> Seq<char>
    decreases ty,
{
    match ty {
        Type::Fun { dom, cod, .. } => "("@ + spelling(*dom) + " -> "@ + spelling(*cod) + ")"@,
        Type::App(f, a) => if is_applied(*a) {
            spelling(*f) + " ("@ + spelling(*a) + ")"@
        } else {
            spelling(*f) + " "@ + spelling(*a)
        },
        Type::Named(s) => s@,
    }
}

proof fn lemma_plain_words()
    ensures
        rocq_sort_name(Seq::empty()) == Seq::<char>::empty(),
        rocq_sort_name("->"@) == "->"@,
{
    reveal_strlit("Bool");
    reveal_strlit("Int");
    reveal_strlit("Real");
    reveal_strlit("->");
    let none = Seq::<char>::empty();
    assert("Bool"@.len() == 4 && "Int"@.len() == 3 && "Real"@.len() == 4 && "->"@.len() == 2);
    a_sort_name_of_one_word_has_its_built_in_name(none);
    assert("->"@[0] == '-' && "->"@[1] == '>');
    a_sort_name_of_one_word_has_its_built_in_name("->"@);
}

proof fn lemma_enclosed_words(s: Seq<char>)
    ensures
        rocq_sort_name("("@ + s + ")"@) == "("@ + rocq_sort_name(s) + ")"@,
{
    reveal_strlit("(");
    reveal_strlit(")");
    let none = Seq::<char>::empty();
    lemma_plain_words();
    an_applied_sort_name_is_mapped_word_by_word(s, ')', none);
    an_applied_sort_name_is_mapped_word_by_word(none, '(', s + seq![')'] + none);
    assert("("@ + s + ")"@ =~= none + seq!['('] + (s + seq![')'] + none));
    let written = rocq_sort_name(s);
    assert("("@ + written + ")"@ =~= none + seq!['('] + (written + seq![')'] + none));
}

proof fn lemma_arrow_words(a: Seq<char>, b: Seq<char>)
    ensures
        rocq_sort_name(a + " -> "@ + b) == rocq_sort_name(a) + " -> "@ + rocq_sort_name(b),
{
    reveal_strlit("->");
    reveal_strlit(" -> ");
    lemma_plain_words();
    an_applied_sort_name_is_mapped_word_by_word("->"@, ' ', b);
    an_applied_sort_name_is_mapped_word_by_word(a, ' ', "->"@ + seq![' '] + b);
    assert(" -> "@ =~= seq![' '] + "->"@ + seq![' ']);
    assert(a + " -> "@ + b =~= a + seq![' '] + ("->"@ + seq![' '] + b));
    let left = rocq_sort_name(a);
    let right = rocq_sort_name(b);
    assert(left + " -> "@ + right =~= left + seq![' '] + ("->"@ + seq![' '] + right));
}

proof fn lemma_applied_words(a: Seq<char>, b: Seq<char>)
    ensures
        rocq_sort_name(a + " "@ + b) == rocq_sort_name(a) + " "@ + rocq_sort_name(b),
        rocq_sort_name(a + " ("@ + b + ")"@) == rocq_sort_name(a) + " ("@ + rocq_sort_name(b)
            + ")"@,
{
    reveal_strlit("(");
    reveal_strlit(" ");
    reveal_strlit(" (");
    assert(" "@ =~= seq![' ']);
    assert(" ("@ =~= " "@ + "("@);
    an_applied_sort_name_is_mapped_word_by_word(a, ' ', b);
    an_applied_sort_name_is_mapped_word_by_word(a, ' ', "("@ + b + ")"@);
    lemma_enclosed_words(b);
    assert(a + " ("@ + b + ")"@ =~= a + " "@ + ("("@ + b + ")"@));
    let left = rocq_sort_name(a);
    let right = rocq_sort_name(b);
    assert(left + " ("@ + right + ")"@ =~= left + " "@ + ("("@ + right + ")"@));
}

proof fn lemma_spelling(sig: Signature, ty: &Type)
    requires
        sig.rocq_names@.len() == 0,
    ensures
        rocq_sort_name(spelling(*ty)) == rocq_type(sig, *ty),
    decreases *ty,
{
    match ty {
        Type::Fun { dom, cod, .. } => {
            let d: &Type = &**dom;
            let c: &Type = &**cod;
            lemma_spelling(sig, d);
            lemma_spelling(sig, c);
            let left = spelling(*d);
            let right = spelling(*c);
            lemma_arrow_words(left, right);
            lemma_enclosed_words(left + " -> "@ + right);
            lemma_concat_associative("("@, left + " -> "@, right);
            lemma_concat_associative("("@, left, " -> "@);
            let from = rocq_type(sig, *d);
            let to = rocq_type(sig, *c);
            lemma_concat_associative("("@, from + " -> "@, to);
            lemma_concat_associative("("@, from, " -> "@);
        },
        Type::App(f, a) => {
            let fun: &Type = &**f;
            let arg: &Type = &**a;
            lemma_spelling(sig, fun);
            lemma_spelling(sig, arg);
            lemma_applied_words(spelling(*fun), spelling(*arg));
        },
        Type::Named(_) => {
            assert(sig.rocq_names@ =~= Seq::<(String, String)>::empty());
        },
    }
}

/// A sort name is written as the type that it spells, and no SMT-LIB name of a built-in sort is
/// left in it.
pub proof fn a_sort_name_is_written_as_its_type(sig: Signature, ty: Type)
    requires
        sig.rocq_names@.len() == 0,
    ensures
        rocq_sort_name(spelling(ty)) == rocq_type(sig, ty),
        !has_word(rocq_type(sig, ty), "Bool"@),
        !has_word(rocq_type(sig, ty), "Int"@),
        !has_word(rocq_type(sig, ty), "Real"@),
{
    lemma_spelling(sig, &ty);
    no_built_in_sort_keeps_its_name(spelling(ty));
}

/// Registering a built-in sort changes nothing about what the declaration context uses: only
/// actual uses count.
pub proof fn a_built_in_sort_is_no_use(
    sig: Signature,
    registered: Signature,
    s: SortDecl,
    n: Seq<char>,
)
    requires
        s.builtin,
        registered.sorts@ == sig.sorts@.push(s),
        registered.funs == sig.funs,
        registered.datatypes == sig.datatypes,
    ensures
        uses_sort(registered, n) == uses_sort(sig, n),
{
    if sort_declared(sig, n) {
        let i = choose|i: int|
            0 <= i < sig.sorts@.len() && !(#[trigger] sig.sorts@[i]).builtin && has_word(
                sig.sorts@[i].name@,
                n,
            );
        assert(registered.sorts@[i] == sig.sorts@[i]);
    }
    if sort_declared(registered, n) {
        let i = choose|i: int|
            0 <= i < registered.sorts@.len() && !(#[trigger] registered.sorts@[i]).builtin
                && has_word(registered.sorts@[i].name@, n);
        assert(registered.sorts@[i] == sig.sorts@[i]);
    }
}

/// A numeric sort that the declaration context uses, or that the type of a free variable is built
/// from, is imported.
pub proof fn a_numeric_sort_in_use_is_imported(
    cert: Certificate,
    families: Seq<ClassicalModuleFamily>,
    n: Seq<char>,
)
    requires
        n == "Int"@ || n == "Real"@,
        uses_sort(cert.signature, n) || exists|i: int, v: Var|
            0 <= i < cert.steps@.len() && #[trigger] is_free_in(cert.steps@[i], v)
                && type_mentions(v.ty, n),
    ensures
        n == "Int"@ ==> occurs("From Stdlib Require Import ZArith.\n"@, rocq_file(cert, families)),
        n == "Int"@ ==> occurs("Open Scope Z_scope.\n"@, rocq_file(cert, families)),
        n == "Real"@ ==> occurs("From Stdlib Require Import Reals.\n"@, rocq_file(cert, families)),
{
    broadcast use group_occurs;

    if !uses_sort(cert.signature, n) {
        let (i, v) = choose|i: int, v: Var|
            0 <= i < cert.steps@.len() && #[trigger] is_free_in(cert.steps@[i], v)
                && type_mentions(v.ty, n);
        lemma_step_mentions(cert.steps@[i], v, n);
    }
    assert(needs_sort(cert, n));
    if n == "Int"@ {
        assert(occurs("From Stdlib Require Import ZArith.\n"@, rocq_prelude(cert)));
        assert(occurs("Open Scope Z_scope.\n"@, rocq_prelude(cert)));
    } else {
        assert(occurs("From Stdlib Require Import Reals.\n"@, rocq_prelude(cert)));
    }
}

pub proof fn lemma_step_mentions(step: Step, v: Var, n: Seq<char>)
    requires
        is_free_in(step, v),
        type_mentions(v.ty, n),
    ensures
        step_mentions(step, n),
{
    let concl = step.result.concl.free_vars@;
    if exists|k: int| 0 <= k < concl.len() && #[trigger] concl[k] == v {
        let k = choose|k: int| 0 <= k < concl.len() && #[trigger] concl[k] == v;
        assert(type_mentions(concl[k].ty, n));
    } else {
        let (j, k) = choose|j: int, k: int|
            0 <= j < step.result.hyps@.len() && 0 <= k < step.result.hyps@[j].free_vars@.len()
                && #[trigger] step.result.hyps@[j].free_vars@[k] == v;
        assert(type_mentions(step.result.hyps@[j].free_vars@[k].ty, n));
        assert(vars_mention(step.result.hyps@[j].free_vars@, n));
    }
}

/// A numeric type that the type of a free variable is written with is imported, unless the
/// declaration context declares a name that is written alike.
pub proof fn a_numeric_type_that_is_written_is_imported(
    cert: Certificate,
    families: Seq<ClassicalModuleFamily>,
    i: int,
    v: Var,
)
    requires
        0 <= i < cert.steps@.len(),
        is_free_in(cert.steps@[i], v),
    ensures
        has_word(rocq_type(cert.signature, v.ty), "Z"@) ==> declares(cert.signature, "Z"@)
            || occurs("From Stdlib Require Import ZArith.\n"@, rocq_file(cert, families)),
        has_word(rocq_type(cert.signature, v.ty), "R"@) ==> declares(cert.signature, "R"@)
            || occurs("From Stdlib Require Import Reals.\n"@, rocq_file(cert, families)),
{
    broadcast use group_occurs;

    let entry = var_entry(cert.signature, v);
    lemma_step_vars(cert.signature, cert.steps@, i, v);
    lemma_absorb(Seq::empty(), steps_vars(cert.signature, cert.steps@));
    assert(free_vars(cert).contains(entry));
    let k = choose|k: int| 0 <= k < free_vars(cert).len() && free_vars(cert)[k] == entry;
    if has_word(entry.1, "Z"@) && !declares(cert.signature, "Z"@) {
        assert(has_word(free_vars(cert)[k].1, "Z"@));
        assert(needs_integers(cert));
        assert(occurs("From Stdlib Require Import ZArith.\n"@, rocq_prelude(cert)));
    }
    if has_word(entry.1, "R"@) && !declares(cert.signature, "R"@) {
        assert(has_word(free_vars(cert)[k].1, "R"@));
        assert(needs_reals(cert));
        assert(occurs("From Stdlib Require Import Reals.\n"@, rocq_prelude(cert)));
    }
}

/// Only uses count: where neither the declaration context nor the type of a free variable has the
/// sort, and no type of a free variable is written with its Rocq name, the theory is not needed,
/// whatever the letters of other names.
pub proof fn a_theory_out_of_use_is_not_needed(
    cert: Certificate,
    n: Seq<char>,
    name: Seq<char>,
)
    requires
        !uses_sort(cert.signature, n),
        forall|i: int, v: Var|
            0 <= i < cert.steps@.len() && #[trigger] is_free_in(cert.steps@[i], v)
                ==> !type_mentions(v.ty, n),
        forall|k: int|
            0 <= k < free_vars(cert).len() ==> !has_word((#[trigger] free_vars(cert)[k]).1, name),
    ensures
        !needs_theory(cert, n, name),
{
    assert forall|i: int| 0 <= i < cert.steps@.len() implies !step_mentions(
        #[trigger] cert.steps@[i],
        n,
    ) by {
        let step = cert.steps@[i];
        let concl = step.result.concl.free_vars@;
        if vars_mention(concl, n) {
            let k = choose|k: int| 0 <= k < concl.len() && type_mentions((#[trigger] concl[k]).ty, n);
            assert(is_free_in(step, concl[k]));
        }
        assert forall|j: int| 0 <= j < step.result.hyps@.len() implies !vars_mention(
            (#[trigger] step.result.hyps@[j]).free_vars@,
            n,
        ) by {
            let vars = step.result.hyps@[j].free_vars@;
            if vars_mention(vars, n) {
                let k = choose|k: int| 0 <= k < vars.len() && type_mentions((#[trigger] vars[k]).ty, n);
                assert(step.result.hyps@[j].free_vars@[k] == vars[k]);
                assert(is_free_in(step, vars[k]));
            }
        }
    }
}

/// Every selector that can be stated stands in the file, with its characteristic equation.
pub proof fn every_selector_is_declared(
    cert: Certificate,
    families: Seq<ClassicalModuleFamily>,
    k: int,
    i: int,
    j: int,
)
    requires
        0 <= k < cert.signature.datatypes@.len(),
        0 <= i < cert.signature.datatypes@[k].selectors@.len(),
        has_selectors(cert.signature.datatypes@[k], i),
        0 <= j < cert.signature.datatypes@[k].selectors@[i]@.len(),
    ensures
        occurs(
            selector_piece(cert.signature, cert.signature.datatypes@[k], i)(j),
            rocq_file(cert, families),
        ),
{
    broadcast use group_occurs;

    let sig = cert.signature;
    let d = sig.datatypes@[k];
    let selector = selector_piece(sig, d, i)(j);
    lemma_piece_occurs(d.selectors@[i]@.len(), selector_piece(sig, d, i), j);
    lemma_piece_occurs(d.selectors@.len(), selectors_piece(sig, d), i);
    lemma_occurs_trans(
        selector,
        selectors_piece(sig, d)(i),
        pieces(d.selectors@.len(), selectors_piece(sig, d)),
    );
    assert(occurs(selector, rocq_datatype(sig, d)));
    every_datatype_is_declared(cert, families, k);
    lemma_occurs_trans(selector, rocq_datatype(sig, d), rocq_file(cert, families));
}

proof fn lemma_function_line(sig: Signature, f: FunDecl)
    requires
        sig.rocq_name(f.name@) == f.name@,
    ensures
        match f.body {
            Some(FunBody::Rendered { text, .. }) => occurs(
                "Definition "@ + f.name@ + pieces(binder_count(f), binder_piece(sig, f)) + " : "@
                    + sort_in(sig, f.result@) + " := "@ + text@ + ".\n"@,
                rocq_fun(sig, f),
            ),
            _ => occurs(
                "Parameter "@ + f.name@ + " : "@ + fun_type(sig, f.params@, f.result@) + ".\n"@,
                rocq_fun(sig, f),
            ),
        },
{
    match f.body {
        Some(FunBody::Rendered { text, unmapped }) => {
            let notes = pieces(unmapped@.len(), operator_piece(f.name@, unmapped@));
            let opening = "Definition "@ + f.name@;
            let bound = opening + pieces(binder_count(f), binder_piece(sig, f));
            let typed = bound + " : "@ + sort_in(sig, f.result@);
            let line = typed + " := "@ + text@ + ".\n"@;
            lemma_concat_associative(notes, "Definition "@, f.name@);
            lemma_concat_associative(notes, opening, pieces(binder_count(f), binder_piece(sig, f)));
            lemma_concat_associative(notes, bound, " : "@);
            lemma_concat_associative(notes, bound + " : "@, sort_in(sig, f.result@));
            lemma_concat_associative(notes, typed, " := "@);
            lemma_concat_associative(notes, typed + " := "@, text@);
            lemma_concat_associative(notes, typed + " := "@ + text@, ".\n"@);
            assert(rocq_fun(sig, f) == notes + line);
            lemma_occurs_self(line);
            lemma_occurs_second(line, notes, line);
        },
        Some(FunBody::Unparseable) => {
            let ty = fun_type(sig, f.params@, f.result@);
            let opening = "Parameter "@ + f.name@ + " : "@;
            let line = opening + ty + ".\n"@;
            let note = "(* UNPARSEABLE define-fun body for `"@ + f.name@
                + "`; emitted as uninterpreted *)\n"@;
            lemma_concat_associative(note, "Parameter "@, f.name@);
            lemma_concat_associative(note, "Parameter "@ + f.name@, " : "@);
            lemma_concat_associative(note, opening, ty);
            lemma_concat_associative(note, opening + ty, ".\n"@);
            assert(rocq_fun(sig, f) == note + line);
            lemma_occurs_self(line);
            lemma_occurs_second(line, note, line);
        },
        None => {
            lemma_occurs_self(rocq_fun(sig, f));
        },
    }
}

/// Every function that is not mapped to one of Rocq's stands in the file; a defined one keeps its
/// definition.
pub proof fn every_function_is_declared(
    cert: Certificate,
    families: Seq<ClassicalModuleFamily>,
    i: int,
)
    requires
        0 <= i < cert.signature.funs@.len(),
        cert.signature.rocq_name(cert.signature.funs@[i].name@) == cert.signature.funs@[i].name@,
    ensures
        occurs(rocq_fun(cert.signature, cert.signature.funs@[i]), rocq_file(cert, families)),
        ({
            let f = cert.signature.funs@[i];
            match f.body {
                Some(FunBody::Rendered { text, .. }) => occurs(
                    "Definition "@ + f.name@ + pieces(
                        binder_count(f),
                        binder_piece(cert.signature, f),
                    ) + " : "@ + sort_in(cert.signature, f.result@) + " := "@ + text@ + ".\n"@,
                    rocq_file(cert, families),
                ),
                _ => occurs(
                    "Parameter "@ + f.name@ + " : "@ + fun_type(
                        cert.signature,
                        f.params@,
                        f.result@,
                    ) + ".\n"@,
                    rocq_file(cert, families),
                ),
            }
        }),
{
    let sig = cert.signature;
    let f = sig.funs@[i];
    assert(occurs(rocq_fun(sig, f), rocq_file(cert, families))) by {
        broadcast use group_occurs;

        lemma_piece_occurs(sig.funs@.len(), fun_piece(sig), i);
        assert(occurs(rocq_fun(sig, f), rocq_funs(sig)));
        assert(occurs(rocq_fun(sig, f), rocq_declarations(sig)));
        assert(occurs(rocq_fun(sig, f), rocq_body(cert)));
    }
    lemma_function_line(sig, f);
    match f.body {
        Some(FunBody::Rendered { text, .. }) => {
            let line = "Definition "@ + f.name@ + pieces(binder_count(f), binder_piece(sig, f))
                + " : "@ + sort_in(sig, f.result@) + " := "@ + text@ + ".\n"@;
            lemma_occurs_trans(line, rocq_fun(sig, f), rocq_file(cert, families));
        },
        _ => {
            let line = "Parameter "@ + f.name@ + " : "@ + fun_type(sig, f.params@, f.result@)
                + ".\n"@;
            lemma_occurs_trans(line, rocq_fun(sig, f), rocq_file(cert, families));
        },
    }
}

/// A function that the user maps to one of Rocq's is not declared, and neither is a free variable
/// of its name.
pub proof fn a_mapped_function_is_not_declared(cert: Certificate, i: int)
    requires
        0 <= i < cert.signature.funs@.len(),
        cert.signature.rocq_name(cert.signature.funs@[i].name@) != cert.signature.funs@[i].name@,
    ensures
        fun_piece(cert.signature)(i) == Seq::<char>::empty(),
        forall|k: int|
            0 <= k < free_vars(cert).len() && (#[trigger] free_vars(cert)[k]).0
                == cert.signature.funs@[i].name@ ==> parameter_piece(cert)(k)
                == Seq::<char>::empty(),
{
    assert(declares(cert.signature, cert.signature.funs@[i].name@));
}

/// A character of a Rocq name: anything but the blanks and signs that the emitter puts between
/// names.
pub open spec fn is_name_char(c: char) -> bool {
    !(is_break(c) || c == '=' || c == '<' || c == '>' || c == '+' || c == '-' || c == '*' || c
        == '/' || c == '\\' || c == '~' || c == ':')
}

/// A name: at least one character, all of them characters of names.
pub open spec fn is_name(n: Seq<char>) -> bool {
    &&& n.len() > 0
    &&& forall|i: int| 0 <= i < n.len() ==> is_name_char(#[trigger] n[i])
}

/// The name stands in the text at this position, with no further character of a name before or
/// after it.
pub open spec fn stands_at(name: Seq<char>, text: Seq<char>, p: int) -> bool {
    &&& 0 <= p
    &&& p + name.len() <= text.len()
    &&& text.subrange(p, p + name.len()) == name
    &&& p > 0 ==> !is_name_char(text[p - 1])
    &&& p + name.len() < text.len() ==> !is_name_char(text[p + name.len()])
}

/// The text uses the name.
pub open spec fn uses_name(text: Seq<char>, name: Seq<char>) -> bool {
    exists|p: int| #[trigger] stands_at(name, text, p)
}

proof fn lemma_uses_concat(a: Seq<char>, b: Seq<char>, name: Seq<char>)
    requires
        is_name(name),
        !uses_name(a, name),
        !uses_name(b, name),
        a.len() > 0 && b.len() > 0 ==> !is_name_char(a.last()) || !is_name_char(b[0]),
    ensures
        !uses_name(a + b, name),
{
    let text = a + b;
    let m = a.len() as int;
    let l = name.len() as int;
    assert forall|p: int| !#[trigger] stands_at(name, text, p) by {
        if stands_at(name, text, p) {
            if p + l <= m {
                assert(a.subrange(p, p + l) =~= text.subrange(p, p + l));
                assert(stands_at(name, a, p));
            } else if p >= m {
                assert(b.subrange(p - m, p - m + l) =~= text.subrange(p, p + l));
                assert(stands_at(name, b, p - m));
            } else {
                let shown = text.subrange(p, p + l);
                assert(shown[m - 1 - p] == a.last());
                assert(shown[m - p] == b[0]);
                assert(is_name_char(name[m - 1 - p]) && is_name_char(name[m - p]));
            }
        }
    }
}

proof fn lemma_signs_use_nothing(text: Seq<char>, name: Seq<char>)
    requires
        is_name(name),
        forall|i: int| 0 <= i < text.len() ==> !is_name_char(#[trigger] text[i]),
    ensures
        !uses_name(text, name),
{
    assert forall|p: int| !#[trigger] stands_at(name, text, p) by {
        if stands_at(name, text, p) {
            assert(text.subrange(p, p + name.len())[0] == text[p]);
            assert(is_name_char(name[0]));
        }
    }
}

proof fn lemma_another_name_is_no_use(text: Seq<char>, name: Seq<char>)
    requires
        is_name(name),
        is_name(text),
        text != name,
    ensures
        !uses_name(text, name),
{
    assert forall|p: int| !#[trigger] stands_at(name, text, p) by {
        if stands_at(name, text, p) {
            if p > 0 {
                assert(is_name_char(text[p - 1]));
            }
            if p + name.len() < text.len() {
                assert(is_name_char(text[p + name.len()]));
            }
            assert(text.subrange(p, p + name.len()) =~= text);
        }
    }
}

/// `name` occurs in the term only as a variable or a constant: no other variable or constant
/// holds it as a part, and no binder and no binder's type uses it.
pub open spec fn uses_only_as_itself(sig: Signature, t: Term, name: Seq<char>) -> bool
    decreases t,
{
    &&& match t.equation {
        Some((lhs, rhs)) => uses_only_as_itself(sig, *lhs, name) && uses_only_as_itself(
            sig,
            *rhs,
            name,
        ),
        None => true,
    }
    &&& match t.spine {
        Some(s) => forall|i: int|
            0 <= i < s.args@.len() ==> uses_only_as_itself(sig, *#[trigger] s.args@[i], name),
        None => true,
    }
    &&& match t.node {
        TermNode::Var(v) => v.name@ == name || !uses_name(v.name@, name),
        TermNode::Const(c) => c@ == name || !uses_name(c@, name),
        TermNode::App(f, x) => uses_only_as_itself(sig, *f, name) && uses_only_as_itself(
            sig,
            *x,
            name,
        ),
        TermNode::Lam(v, body) => {
            &&& v.name@ != name
            &&& !uses_name(v.name@, name)
            &&& !uses_name(rocq_type(sig, v.ty), name)
            &&& uses_only_as_itself(sig, *body, name)
        },
    }
}

/// The function of this name is declared and mapped to one of Rocq's, and no function is mapped to
/// a name that uses it.
pub open spec fn is_mapped_away(sig: Signature, name: Seq<char>) -> bool {
    &&& is_name(name)
    &&& name != "fun"@ && name != "True"@ && name != "False"@
    &&& sig.is_function(name)
    &&& sig.rocq_name(name) != name
    &&& forall|n: Seq<char>| #[trigger]
        sig.is_function(n) && sig.rocq_name(n) != n ==> !uses_name(sig.rocq_name(n), name)
}

proof fn lemma_enclosed(open: Seq<char>, text: Seq<char>, close: Seq<char>, name: Seq<char>)
    requires
        is_name(name),
        !uses_name(open, name),
        !uses_name(text, name),
        !uses_name(close, name),
        open.len() > 0 && !is_name_char(open.last()),
        close.len() > 0 && !is_name_char(close[0]),
    ensures
        !uses_name(open + text + close, name),
{
    lemma_uses_concat(open, text, name);
    lemma_uses_concat(open + text, close, name);
}

proof fn lemma_joined(a: Seq<char>, sign: Seq<char>, b: Seq<char>, name: Seq<char>)
    requires
        is_name(name),
        !uses_name(a, name),
        !uses_name(b, name),
        sign.len() > 0,
        forall|i: int| 0 <= i < sign.len() ==> !is_name_char(#[trigger] sign[i]),
    ensures
        !uses_name(a + sign + b, name),
{
    lemma_signs_use_nothing(sign, name);
    lemma_uses_concat(a, sign, name);
    assert((a + sign).last() == sign.last());
    lemma_uses_concat(a + sign, b, name);
}

proof fn lemma_signs(name: Seq<char>)
    requires
        is_name(name),
    ensures
        "("@.len() == 1 && "("@[0] == '(' && !uses_name("("@, name),
        ")"@.len() == 1 && ")"@[0] == ')' && !uses_name(")"@, name),
        "(~ "@.len() == 3 && "(~ "@[2] == ' ' && !uses_name("(~ "@, name),
        forall|i: int| 0 <= i < " = "@.len() ==> !is_name_char(#[trigger] " = "@[i]),
        " = "@.len() == 3,
        forall|i: int| 0 <= i < " : "@.len() ==> !is_name_char(#[trigger] " : "@[i]),
        " : "@.len() == 3,
        forall|i: int| 0 <= i < " => "@.len() ==> !is_name_char(#[trigger] " => "@[i]),
        " => "@.len() == 4,
        forall|i: int| 0 <= i < " "@.len() ==> !is_name_char(#[trigger] " "@[i]),
        " "@.len() == 1,
        forall|i: int| 0 <= i < " ("@.len() ==> !is_name_char(#[trigger] " ("@[i]),
        " ("@.len() == 2,
{
    reveal_strlit("(");
    reveal_strlit(")");
    reveal_strlit("(~ ");
    reveal_strlit(" = ");
    reveal_strlit(" : ");
    reveal_strlit(" => ");
    reveal_strlit(" ");
    reveal_strlit(" (");
    lemma_signs_use_nothing("("@, name);
    lemma_signs_use_nothing(")"@, name);
    lemma_signs_use_nothing("(~ "@, name);
}

proof fn lemma_infix_is_signs(head: Seq<char>)
    requires
        rocq_infix(head) is Some,
    ensures
        rocq_infix(head)->0.len() > 0,
        forall|i: int|
            0 <= i < rocq_infix(head)->0.len() ==> !is_name_char(#[trigger] rocq_infix(head)->0[i]),
{
    reveal_strlit(" < ");
    reveal_strlit(" <= ");
    reveal_strlit(" > ");
    reveal_strlit(" >= ");
    reveal_strlit(" + ");
    reveal_strlit(" - ");
    reveal_strlit(" * ");
    reveal_strlit(" /\\ ");
    reveal_strlit(" \\/ ");
    reveal_strlit(" -> ");
    reveal_strlit(" <-> ");
}

proof fn lemma_fun_is_no_use(name: Seq<char>)
    requires
        is_name(name),
        name != "fun"@,
    ensures
        !uses_name("(fun "@, name),
        "(fun "@.len() == 5,
        "(fun "@[4] == ' ',
{
    reveal_strlit("fun");
    reveal_strlit("(fun ");
    let open = seq!['('];
    let blank = seq![' '];
    assert("(fun "@ =~= open + "fun"@ + blank);
    lemma_signs_use_nothing(open, name);
    lemma_signs_use_nothing(blank, name);
    assert forall|i: int| 0 <= i < "fun"@.len() implies is_name_char(#[trigger] "fun"@[i]) by {}
    lemma_another_name_is_no_use("fun"@, name);
    lemma_enclosed(open, "fun"@, blank, name);
}

proof fn lemma_leaf(sig: Signature, bound: Seq<Seq<char>>, n: Seq<char>, name: Seq<char>)
    requires
        is_mapped_away(sig, name),
        !bound.contains(name),
        n == name || !uses_name(n, name),
    ensures
        !uses_name(rocq_variable(sig, bound, n), name),
        !uses_name(rocq_constant(sig, n), name),
{
    reveal_strlit("True");
    reveal_strlit("False");
    assert(is_name("True"@) && is_name("False"@));
    lemma_another_name_is_no_use("True"@, name);
    lemma_another_name_is_no_use("False"@, name);
    assert(sig.is_function(n) && sig.rocq_name(n) != n ==> !uses_name(sig.rocq_name(n), name));
}

proof fn lemma_term_uses(sig: Signature, bound: Seq<Seq<char>>, t: &Term, name: Seq<char>)
    requires
        is_mapped_away(sig, name),
        !bound.contains(name),
        uses_only_as_itself(sig, *t, name),
    ensures
        !uses_name(rocq_term_in(sig, bound, *t), name),
    decreases *t,
{
    lemma_signs(name);
    if let Some((lhs, rhs)) = &t.equation {
        let l: &Term = &**lhs;
        let r: &Term = &**rhs;
        lemma_term_uses(sig, bound, l, name);
        lemma_term_uses(sig, bound, r, name);
        let left = rocq_term_in(sig, bound, *l);
        let right = rocq_term_in(sig, bound, *r);
        lemma_joined(left, " = "@, right, name);
        lemma_enclosed("("@, left + " = "@ + right, ")"@, name);
        assert("("@ + (left + " = "@ + right) + ")"@ =~= "("@ + left + " = "@ + right + ")"@);
    } else if t.spine is Some && t.spine->0.args@.len() == 2 && rocq_infix(
        t.spine->0.head@,
    ) is Some {
        let op = rocq_infix(t.spine->0.head@)->0;
        let l: &Term = &*t.spine->0.args@[0];
        let r: &Term = &*t.spine->0.args@[1];
        lemma_term_uses(sig, bound, l, name);
        lemma_term_uses(sig, bound, r, name);
        lemma_infix_is_signs(t.spine->0.head@);
        let left = rocq_term_in(sig, bound, *l);
        let right = rocq_term_in(sig, bound, *r);
        lemma_joined(left, op, right, name);
        lemma_enclosed("("@, left + op + right, ")"@, name);
        assert("("@ + (left + op + right) + ")"@ =~= "("@ + left + op + right + ")"@);
    } else if t.spine is Some && t.spine->0.args@.len() == 1 && t.spine->0.head@ == "not"@ {
        let arg: &Term = &*t.spine->0.args@[0];
        lemma_term_uses(sig, bound, arg, name);
        lemma_enclosed("(~ "@, rocq_term_in(sig, bound, *arg), ")"@, name);
    } else {
        lemma_node_uses(sig, bound, t, name);
    }
}

proof fn lemma_node_uses(sig: Signature, bound: Seq<Seq<char>>, t: &Term, name: Seq<char>)
    requires
        is_mapped_away(sig, name),
        !bound.contains(name),
        uses_only_as_itself(sig, *t, name),
        t.equation is None,
        t.spine is Some ==> !(t.spine->0.args@.len() == 2 && rocq_infix(
            t.spine->0.head@,
        ) is Some) && !(t.spine->0.args@.len() == 1 && t.spine->0.head@ == "not"@),
    ensures
        !uses_name(rocq_term_in(sig, bound, *t), name),
    decreases t.node,
{
    lemma_signs(name);
    match &t.node {
        TermNode::Var(v) => lemma_leaf(sig, bound, v.name@, name),
        TermNode::Const(c) => lemma_leaf(sig, bound, c@, name),
        TermNode::App(f, x) => {
            let fun: &Term = &**f;
            let arg: &Term = &**x;
            lemma_term_uses(sig, bound, fun, name);
            lemma_term_uses(sig, bound, arg, name);
            let head = rocq_term_in(sig, bound, *fun);
            let rest = rocq_term_in(sig, bound, *arg);
            lemma_joined(head, " "@, rest, name);
            lemma_joined(head, " ("@, rest, name);
            lemma_uses_concat(head + " ("@ + rest, ")"@, name);
        },
        TermNode::Lam(v, b) => {
            let body: &Term = &**b;
            let inside = bound.push(v.name@);
            assert(!inside.contains(name)) by {
                if inside.contains(name) {
                    let k = choose|k: int| 0 <= k < inside.len() && inside[k] == name;
                    assert(bound[k] == name);
                }
            }
            lemma_term_uses(sig, inside, body, name);
            lemma_fun_is_no_use(name);
            let ty = rocq_type(sig, v.ty);
            let text = rocq_term_in(sig, inside, *body);
            lemma_joined(ty, " => "@, text, name);
            lemma_joined(v.name@, " : "@, ty + " => "@ + text, name);
            let all = v.name@ + " : "@ + (ty + " => "@ + text);
            lemma_enclosed("(fun "@, all, ")"@, name);
            assert("(fun "@ + all + ")"@ =~= "(fun "@ + v.name@ + " : "@ + ty + " => "@ + text
                + ")"@);
        },
    }
}

/// A statement writes a free occurrence of a mapped function by the name that it has in Rocq.
pub proof fn a_mapped_function_is_written_by_its_rocq_name(sig: Signature, t: Term, name: Seq<char>)
    requires
        sig.is_function(name),
        sig.rocq_name(name) != name,
        t.equation is None,
        t.spine is None || t.spine->0.args@.len() == 0,
        t.node matches TermNode::Var(v) ==> v.name@ == name,
        t.node matches TermNode::Const(c) ==> c@ == name,
        t.node is Var || t.node is Const,
    ensures
        rocq_term(sig, t) == sig.rocq_name(name),
{
}

/// `name` occurs in the terms of the step only as a variable or a constant.
pub open spec fn step_uses_only_as_itself(sig: Signature, step: Step, name: Seq<char>) -> bool {
    &&& uses_only_as_itself(sig, step.result.concl.term, name)
    &&& forall|j: int|
        0 <= j < step.result.hyps@.len() ==> uses_only_as_itself(
            sig,
            (#[trigger] step.result.hyps@[j]).term,
            name,
        )
    &&& match step.body {
        StepBody::Assume(t) => uses_only_as_itself(sig, t, name),
        StepBody::Refl(t) => uses_only_as_itself(sig, t, name),
        StepBody::Assumed { formula, .. } => uses_only_as_itself(sig, formula, name),
        _ => true,
    }
}

proof fn lemma_implication_uses(prems: Seq<Seq<char>>, concl: Seq<char>, name: Seq<char>)
    requires
        is_name(name),
        forall|i: int| 0 <= i < prems.len() ==> !uses_name(#[trigger] prems[i], name),
        !uses_name(concl, name),
    ensures
        !uses_name(implication(prems, concl), name),
    decreases prems.len(),
{
    if prems.len() > 0 {
        reveal_strlit(" -> ");
        let rest = prems.skip(1);
        assert forall|i: int| 0 <= i < rest.len() implies !uses_name(#[trigger] rest[i], name) by {
            assert(rest[i] == prems[i + 1]);
        }
        lemma_implication_uses(rest, concl, name);
        assert(!uses_name(prems[0], name));
        lemma_joined(prems[0], " -> "@, implication(rest, concl), name);
    }
}

proof fn lemma_conclusion_uses(sig: Signature, steps: Seq<Step>, id: StepId, name: Seq<char>)
    requires
        is_mapped_away(sig, name),
        forall|k: int|
            0 <= k < steps.len() ==> step_uses_only_as_itself(sig, #[trigger] steps[k], name),
    ensures
        conclusion_of(sig, steps, id) matches Some(concl) ==> !uses_name(concl, name),
    decreases steps.len(),
{
    if steps.len() > 0 {
        let rest = steps.skip(1);
        assert(step_uses_only_as_itself(sig, steps[0], name));
        lemma_term_uses(sig, Seq::empty(), &steps[0].result.concl.term, name);
        assert forall|k: int| 0 <= k < rest.len() implies step_uses_only_as_itself(
            sig,
            #[trigger] rest[k],
            name,
        ) by {
            assert(rest[k] == steps[k + 1]);
        }
        lemma_conclusion_uses(sig, rest, id, name);
    }
}

proof fn lemma_premises_use(
    sig: Signature,
    steps: Seq<Step>,
    parents: Seq<StepId>,
    name: Seq<char>,
)
    requires
        is_mapped_away(sig, name),
        forall|k: int|
            0 <= k < steps.len() ==> step_uses_only_as_itself(sig, #[trigger] steps[k], name),
    ensures
        forall|i: int|
            0 <= i < premises(sig, steps, parents).len() ==> !uses_name(
                #[trigger] premises(sig, steps, parents)[i],
                name,
            ),
    decreases parents.len(),
{
    if parents.len() > 0 {
        lemma_premises_use(sig, steps, parents.drop_last(), name);
        lemma_conclusion_uses(sig, steps, parents.last(), name);
        let before = premises(sig, steps, parents.drop_last());
        assert forall|i: int| 0 <= i < premises(sig, steps, parents).len() implies !uses_name(
            #[trigger] premises(sig, steps, parents)[i],
            name,
        ) by {
            if i < before.len() {
                assert(!uses_name(before[i], name));
            }
        }
    }
}

/// No statement of the file uses the own name of a function that is mapped to one of Rocq's, which
/// the file does not declare: neither what a step assumes or states, nor what its oracle states,
/// nor the result.
pub proof fn no_statement_uses_a_mapped_functions_own_name(
    cert: Certificate,
    i: int,
    name: Seq<char>,
)
    requires
        0 <= i < cert.steps@.len(),
        is_mapped_away(cert.signature, name),
        forall|k: int|
            0 <= k < cert.steps@.len() ==> step_uses_only_as_itself(
                cert.signature,
                #[trigger] cert.steps@[k],
                name,
            ),
        cert.final_sequent matches Some(sequent) ==> uses_only_as_itself(
            cert.signature,
            sequent.concl.term,
            name,
        ),
    ensures
        ({
            let sig = cert.signature;
            let step = cert.steps@[i];
            let concl = rocq_term(sig, step.result.concl.term);
            &&& !uses_name(proved(sig, step), name)
            &&& !uses_name(statement(sig, step), name)
            &&& step.body matches StepBody::Theory { parents, .. } ==> !uses_name(
                implication(premises(sig, cert.steps@, parents@), concl),
                name,
            )
            &&& step.body is Instance ==> !uses_name(
                implication(hypothesis_texts(sig, step.result.hyps@), concl),
                name,
            )
            &&& step.body matches StepBody::Assumed { formula, .. } ==> !uses_name(
                rocq_term(sig, formula),
                name,
            )
            &&& cert.final_sequent matches Some(sequent) ==> !uses_name(
                rocq_term(sig, sequent.concl.term),
                name,
            )
        }),
{
    let sig = cert.signature;
    let step = cert.steps@[i];
    let none = Seq::<Seq<char>>::empty();
    let concl = rocq_term(sig, step.result.concl.term);
    assert(step_uses_only_as_itself(sig, step, name));
    lemma_term_uses(sig, none, &step.result.concl.term, name);
    match step.body {
        StepBody::Assume(t) => lemma_term_uses(sig, none, &t, name),
        StepBody::Refl(t) => {
            lemma_term_uses(sig, none, &t, name);
            lemma_signs(name);
            lemma_joined(rocq_term(sig, t), " = "@, rocq_term(sig, t), name);
        },
        StepBody::Theory { parents, .. } => {
            lemma_premises_use(sig, cert.steps@, parents@, name);
            lemma_implication_uses(premises(sig, cert.steps@, parents@), concl, name);
        },
        StepBody::Instance { .. } => {
            let hyps = hypothesis_texts(sig, step.result.hyps@);
            assert forall|j: int| 0 <= j < hyps.len() implies !uses_name(
                #[trigger] hyps[j],
                name,
            ) by {
                lemma_term_uses(sig, none, &step.result.hyps@[j].term, name);
            }
            lemma_implication_uses(hyps, concl, name);
        },
        StepBody::Assumed { formula, .. } => lemma_term_uses(sig, none, &formula, name),
        _ => {},
    }
    if let Some(sequent) = cert.final_sequent {
        lemma_term_uses(sig, none, &sequent.concl.term, name);
    }
}

/// The oracle of every step that leans on one is stated in the file, before the section.
pub proof fn every_oracle_is_stated_before_the_section(
    cert: Certificate,
    families: Seq<ClassicalModuleFamily>,
    i: int,
)
    requires
        0 <= i < cert.steps@.len(),
        needs_oracle(cert.steps@[i]),
    ensures
        exists|before: Seq<char>, after: Seq<char>|
            {
                &&& rocq_file(cert, families) == #[trigger] (before + "Section Proof.\n\n"@
                    + after)
                &&& occurs(rocq_oracle(cert, cert.steps@[i]), before)
            },
{
    broadcast use group_occurs;

    let oracle = rocq_oracle(cert, cert.steps@[i]);
    let section = "Section Proof.\n\n"@;
    let before = before_section(cert, families);
    let end = "\nEnd Proof.\n"@;
    let rest = "\nEnd AdsmtCert.\n"@ + rocq_query();
    lemma_file_has_section(cert, families);
    lemma_concat_associative(before + section, in_section(cert), end);
    lemma_concat_associative(before + section, in_section(cert) + end, rest);
    assert(rocq_file(cert, families) == before + section + (in_section(cert) + end + rest));
    lemma_piece_occurs(cert.steps@.len(), oracle_piece(cert), i);
    assert(occurs(oracle, rocq_oracles(cert)));
    assert(occurs(oracle, before));
}

/// Every line of the account of what the proof trusts stands in the file.
pub proof fn the_trust_summary_travels_with_the_file(
    cert: Certificate,
    families: Seq<ClassicalModuleFamily>,
    i: int,
)
    requires
        0 <= i < lines_of(cert.trust_summary@).len(),
    ensures
        occurs("(* "@ + lines_of(cert.trust_summary@)[i] + " *)\n"@, rocq_file(cert, families)),
{
    broadcast use group_occurs;

    let lines = lines_of(cert.trust_summary@);
    let comment = "(* "@ + lines[i] + " *)\n"@;
    lemma_piece_occurs(lines.len(), comment_piece(lines), i);
    assert(comment_piece(lines)(i) == comment);
    assert(occurs(comment, rocq_notes(cert)));
    assert(occurs(comment, rocq_body(cert)));
}

} // verus!
