//! How the file is put together, over the certificate and the resolved imports.
use vstd::prelude::*;

use crate::certificate::{Certificate, StepId};
use crate::declarations::{declares, rocq_declarations};
use crate::document::{
    classical_piece, comment_piece, has_parameter, indented_piece, missing_message,
    parameter_piece, required_piece, requirement_list, rocq_body, rocq_classical, rocq_file,
    rocq_header, rocq_notes, rocq_parameters, rocq_prelude, rocq_project, rocq_query, rocq_result,
    step_piece, symbol_piece, ClassicalModuleFamily, ImportResolution,
};
use crate::steps::{rocq_oracles, rocq_step, step_name};
use crate::symbols::{free_vars, needs_integers, needs_reals, unmapped};
use crate::term::rocq_term;
use crate::text::lines_of;
use crate::text_laws::{a_newline_ends_a_line, pieces_are_joined_in_order};

verus! {

/// A certificate may be emitted exactly if it requires nothing or nothing that it requires is
/// missing: a single uncovered requirement is enough to refuse it, however many others are covered.
pub proof fn one_uncovered_requirement_is_enough(imports: ImportResolution)
    ensures
        imports.required@.len() > 0 && imports.missing@.len() > 0 ==> !imports.is_covered(),
        imports.required@.len() == 0 ==> imports.is_covered(),
        imports.missing@.len() == 0 ==> imports.is_covered(),
{
}

/// The refusal names every missing pair, in order, as the step and the family, with a comma between
/// two.
pub proof fn a_refusal_names_every_missing_pair(missing: Seq<(StepId, ClassicalModuleFamily)>) -> (
    parts: Seq<Seq<char>>)
    ensures
        parts.len() == missing.len(),
        forall|k: int|
            0 <= k < parts.len() ==> #[trigger] parts[k] == if k == 0 {
                step_name(missing[k].0) + ":"@ + missing[k].1.name@
            } else {
                ", "@ + (step_name(missing[k].0) + ":"@ + missing[k].1.name@)
            },
        requirement_list(missing) == parts.flatten(),
        missing_message(missing)
            == "adsmt-emit-rocq: cert has uncovered classical-axiom requirements: ["@
            + parts.flatten()
            + "]. Add `should_import_classical` or `allow_to_import_classical` markers on the offending steps."@,
    decreases missing.len(),
{
    if missing.len() == 0 {
        Seq::empty()
    } else {
        let init = missing.drop_last();
        let before = a_refusal_names_every_missing_pair(init);
        let entry = step_name(missing.last().0) + ":"@ + missing.last().1.name@;
        let part = if missing.len() == 1 {
            entry
        } else {
            ", "@ + entry
        };
        before.lemma_flatten_push(part);
        assert(before.flatten() + ", "@ + entry =~= before.flatten() + (", "@ + entry));
        if missing.len() == 1 {
            assert(before =~= Seq::empty());
            assert(Seq::<char>::empty() + entry =~= entry);
        }
        let parts = before.push(part);
        assert forall|k: int| 0 <= k < parts.len() implies #[trigger] parts[k] == if k == 0 {
            step_name(missing[k].0) + ":"@ + missing[k].1.name@
        } else {
            ", "@ + (step_name(missing[k].0) + ":"@ + missing[k].1.name@)
        } by {
            if k < before.len() {
                assert(parts[k] == before[k]);
                assert(init[k] == missing[k]);
            }
        }
        parts
    }
}

proof fn lemma_project_lines()
    ensures
        lines_of(rocq_project()) == seq![
            "-R . AdsmtCert"@,
            "# depends on Ltac2 (with Rocq since 8.10)"@,
            "-arg -w -arg -notation-overridden"@,
            "AdsmtCert.v"@,
        ],
{
    let first = "-R . AdsmtCert"@;
    let second = "# depends on Ltac2 (with Rocq since 8.10)"@;
    let third = "-arg -w -arg -notation-overridden"@;
    let fourth = "AdsmtCert.v"@;
    let end = seq!['\n'];
    let none = Seq::<char>::empty();
    lemma_first_line();
    lemma_second_line();
    lemma_third_line();
    lemma_fourth_line();
    let rest3 = fourth + end + none;
    let rest2 = third + end + rest3;
    let rest1 = second + end + rest2;
    a_newline_ends_a_line(fourth, none);
    a_newline_ends_a_line(third, rest3);
    a_newline_ends_a_line(second, rest2);
    a_newline_ends_a_line(first, rest1);
    assert(rocq_project() =~= first + end + rest1);
    let all = seq![first] + (seq![second] + (seq![third] + (seq![fourth] + Seq::<
        Seq<char>,
    >::empty())));
    assert(lines_of(rocq_project()) == all);
    assert(all =~= seq![first, second, third, fourth]);
}

proof fn lemma_first_line()
    ensures
        forall|i: int| 0 <= i < "-R . AdsmtCert"@.len() ==> #[trigger] "-R . AdsmtCert"@[i] != '\n',
        "-R . AdsmtCert"@.len() > 0 && "-R . AdsmtCert"@.last() != '\r',
        "-R . AdsmtCert\n"@ == "-R . AdsmtCert"@ + seq!['\n'],
{
    reveal_strlit("-R . AdsmtCert");
    reveal_strlit("-R . AdsmtCert\n");
    assert("-R . AdsmtCert\n"@ =~= "-R . AdsmtCert"@ + seq!['\n']);
}

proof fn lemma_second_line()
    ensures
        forall|i: int|
            0 <= i < "# depends on Ltac2 (with Rocq since 8.10)"@.len()
                ==> #[trigger] "# depends on Ltac2 (with Rocq since 8.10)"@[i] != '\n',
        "# depends on Ltac2 (with Rocq since 8.10)"@.len() > 0
            && "# depends on Ltac2 (with Rocq since 8.10)"@.last() != '\r',
        "# depends on Ltac2 (with Rocq since 8.10)\n"@
            == "# depends on Ltac2 (with Rocq since 8.10)"@ + seq!['\n'],
{
    reveal_strlit("# depends on Ltac2 (with Rocq since 8.10)");
    reveal_strlit("# depends on Ltac2 (with Rocq since 8.10)\n");
    assert("# depends on Ltac2 (with Rocq since 8.10)\n"@
        =~= "# depends on Ltac2 (with Rocq since 8.10)"@ + seq!['\n']);
}

proof fn lemma_third_line()
    ensures
        forall|i: int|
            0 <= i < "-arg -w -arg -notation-overridden"@.len()
                ==> #[trigger] "-arg -w -arg -notation-overridden"@[i] != '\n',
        "-arg -w -arg -notation-overridden"@.len() > 0
            && "-arg -w -arg -notation-overridden"@.last() != '\r',
        "-arg -w -arg -notation-overridden\n"@ == "-arg -w -arg -notation-overridden"@ + seq!['\n'],
{
    reveal_strlit("-arg -w -arg -notation-overridden");
    reveal_strlit("-arg -w -arg -notation-overridden\n");
    assert("-arg -w -arg -notation-overridden\n"@ =~= "-arg -w -arg -notation-overridden"@
        + seq!['\n']);
}

proof fn lemma_fourth_line()
    ensures
        forall|i: int| 0 <= i < "AdsmtCert.v"@.len() ==> #[trigger] "AdsmtCert.v"@[i] != '\n',
        "AdsmtCert.v"@.len() > 0 && "AdsmtCert.v"@.last() != '\r',
        "AdsmtCert.v\n"@ == "AdsmtCert.v"@ + seq!['\n'],
{
    reveal_strlit("AdsmtCert.v");
    reveal_strlit("AdsmtCert.v\n");
    assert("AdsmtCert.v\n"@ =~= "AdsmtCert.v"@ + seq!['\n']);
}

/// The build declaration has four lines: where the module lives, the Ltac2 dependency, the warning
/// that is switched off, and the file. The header of every file shows them in this order, each
/// indented by five blanks.
pub proof fn the_header_shows_the_build_declaration() -> (parts: Seq<Seq<char>>)
    ensures
        lines_of(rocq_project()) == seq![
            "-R . AdsmtCert"@,
            "# depends on Ltac2 (with Rocq since 8.10)"@,
            "-arg -w -arg -notation-overridden"@,
            "AdsmtCert.v"@,
        ],
        rocq_project() == "-R . AdsmtCert\n"@ + "# depends on Ltac2 (with Rocq since 8.10)\n"@
            + "-arg -w -arg -notation-overridden\n"@ + "AdsmtCert.v\n"@,
        parts == seq![
            "     "@ + "-R . AdsmtCert"@ + "\n"@,
            "     "@ + "# depends on Ltac2 (with Rocq since 8.10)"@ + "\n"@,
            "     "@ + "-arg -w -arg -notation-overridden"@ + "\n"@,
            "     "@ + "AdsmtCert.v"@ + "\n"@,
        ],
        rocq_header() == "(* Generated by adsmt-emit-rocq (Rocq/Coq reflection, Ltac2) *)\n"@
            + "(* One Parameter per free term variable, one decl per cert step *)\n"@
            + "(* Target logic: Rocq/Coq `Prop` with Stdlib.Logic + Ltac2. *)\n"@
            + "(* Build declaration - write this next to the file as `_CoqProject`:\n"@
            + parts.flatten() + "*)\n"@,
{
    lemma_project_lines();
    let lines = lines_of(rocq_project());
    let parts = pieces_are_joined_in_order(lines.len(), indented_piece(lines));
    assert(parts =~= seq![
        "     "@ + "-R . AdsmtCert"@ + "\n"@,
        "     "@ + "# depends on Ltac2 (with Rocq since 8.10)"@ + "\n"@,
        "     "@ + "-arg -w -arg -notation-overridden"@ + "\n"@,
        "     "@ + "AdsmtCert.v"@ + "\n"@,
    ]);
    parts
}

/// The notes are a comment for each unmapped constant, in order, then each line of the trust summary
/// as a comment, in order, then a blank line.
pub proof fn the_notes_are_comments_in_order(cert: Certificate) -> (r: (
    Seq<Seq<char>>,
    Seq<Seq<char>>,
))
    ensures
        r.0.len() == unmapped(cert).len(),
        forall|i: int|
            0 <= i < r.0.len() ==> #[trigger] r.0[i] == "(* UNMAPPED SYMBOL: `"@ + unmapped(cert)[i]
                + "` is emitted verbatim and may not parse in Rocq. *)\n"@,
        r.1.len() == lines_of(cert.trust_summary@).len(),
        forall|i: int|
            0 <= i < r.1.len() ==> #[trigger] r.1[i] == "(* "@ + lines_of(cert.trust_summary@)[i]
                + " *)\n"@,
        rocq_notes(cert) == r.0.flatten() + r.1.flatten() + "\n"@,
{
    let symbols = pieces_are_joined_in_order(unmapped(cert).len(), symbol_piece(unmapped(cert)));
    let lines = lines_of(cert.trust_summary@);
    let comments = pieces_are_joined_in_order(lines.len(), comment_piece(lines));
    (symbols, comments)
}

/// Every free variable is a parameter of its type, in order, unless the declaration context accounts
/// for its name. A blank line follows if there is such a parameter; otherwise nothing is written.
pub proof fn free_variables_are_parameters_in_order(cert: Certificate) -> (parts: Seq<Seq<char>>)
    ensures
        parts.len() == free_vars(cert).len(),
        forall|i: int|
            0 <= i < parts.len() ==> #[trigger] parts[i] == if declares(
                cert.signature,
                free_vars(cert)[i].0,
            ) {
                Seq::empty()
            } else {
                "Parameter "@ + free_vars(cert)[i].0 + " : "@ + free_vars(cert)[i].1 + ".\n"@
            },
        (exists|i: int|
            0 <= i < free_vars(cert).len() && !declares(
                cert.signature,
                (#[trigger] free_vars(cert)[i]).0,
            )) ==> rocq_parameters(cert) == parts.flatten() + "\n"@,
        (forall|i: int|
            0 <= i < free_vars(cert).len() ==> declares(
                cert.signature,
                (#[trigger] free_vars(cert)[i]).0,
            )) ==> rocq_parameters(cert) == Seq::<char>::empty(),
{
    let parts = pieces_are_joined_in_order(free_vars(cert).len(), parameter_piece(cert));
    if exists|i: int|
        0 <= i < free_vars(cert).len() && !declares(
            cert.signature,
            (#[trigger] free_vars(cert)[i]).0,
        ) {
        assert(has_parameter(cert));
    } else {
        assert(!has_parameter(cert));
    }
    parts
}

/// The prelude is the logic, the numeric theories that are needed, the modules that the declarations
/// need in order, and Ltac2 as the mode of every proof; the integers' notations are opened last, and
/// only where the integers are needed.
pub proof fn the_prelude_imports_what_is_needed(cert: Certificate) -> (modules: Seq<Seq<char>>)
    ensures
        modules.len() == cert.signature.required_imports@.len(),
        forall|i: int|
            0 <= i < modules.len() ==> #[trigger] modules[i] == "Require Import "@
                + cert.signature.required_imports@[i]@ + ".\n"@,
        ({
            let logic = "From Stdlib Require Import Logic.\n"@;
            let integers = if needs_integers(cert) {
                "From Stdlib Require Import ZArith.\n"@
            } else {
                Seq::empty()
            };
            let reals = if needs_reals(cert) {
                "From Stdlib Require Import Reals.\n"@
            } else {
                Seq::empty()
            };
            let scope = if needs_integers(cert) {
                "Open Scope Z_scope.\n"@
            } else {
                Seq::empty()
            };
            rocq_prelude(cert) == logic + integers + reals + modules.flatten()
                + "From Ltac2 Require Import Ltac2.\n"@ + "Set Default Proof Mode \"Ltac2\".\n"@
                + scope
        }),
{
    let required = cert.signature.required_imports@;
    pieces_are_joined_in_order(required.len(), required_piece(required))
}

/// Every resolved family that has an import line is imported by it, in order, and a blank line
/// follows.
pub proof fn resolved_families_are_imported_in_order(families: Seq<ClassicalModuleFamily>) -> (parts:
    Seq<Seq<char>>)
    ensures
        parts.len() == families.len(),
        forall|i: int|
            0 <= i < parts.len() ==> #[trigger] parts[i] == match families[i].import_line {
                Some(line) => line@ + "\n"@,
                None => Seq::empty(),
            },
        rocq_classical(families) == parts.flatten() + "\n"@,
{
    pieces_are_joined_in_order(families.len(), classical_piece(families))
}

/// The result is the conclusion of the final sequent, proved by the concluding step; a certificate
/// without a final sequent has none.
pub proof fn the_result_is_proved_by_the_concluding_step(cert: Certificate)
    ensures
        cert.final_sequent matches Some(sequent) ==> rocq_result(cert) == "\nTheorem result : "@
            + rocq_term(cert.signature, sequent.concl.term) + ".\nProof. exact "@ + step_name(
            cert.conclusion,
        ) + ". Qed.\n"@,
        cert.final_sequent is None ==> rocq_result(cert) == Seq::<char>::empty(),
{
}

/// The body is the notes and the module: the declarations, the parameters, the oracles, and the
/// section with every step once, in order, and the result.
pub proof fn the_body_has_every_step_once_in_order(cert: Certificate) -> (steps: Seq<Seq<char>>)
    ensures
        steps.len() == cert.steps@.len(),
        forall|i: int|
            0 <= i < steps.len() ==> #[trigger] steps[i] == rocq_step(cert, cert.steps@[i]),
        rocq_body(cert) == rocq_notes(cert) + "Module AdsmtCert.\n\n"@ + rocq_declarations(
            cert.signature,
        ) + rocq_parameters(cert) + rocq_oracles(cert) + "Section Proof.\n\n"@ + steps.flatten()
            + rocq_result(cert) + "\nEnd Proof.\n"@ + "\nEnd AdsmtCert.\n"@,
{
    pieces_are_joined_in_order(cert.steps@.len(), step_piece(cert))
}

/// The file is the header, the prelude, the classical imports, the body and the query for the
/// assumptions of the result.
pub proof fn the_file_stands_in_order(cert: Certificate, families: Seq<ClassicalModuleFamily>)
    ensures
        rocq_file(cert, families) == rocq_header() + rocq_prelude(cert) + rocq_classical(families)
            + rocq_body(cert) + ("\n(* Trust surface: the `adsmt_s*` oracles, plus the axioms the\nDECLARATION context introduces (uninterpreted sorts/functions and\ndatatype selectors). Nothing else may appear. *)\n"@
            + "Print Assumptions AdsmtCert.result.\n"@),
        rocq_query() == "\n(* Trust surface: the `adsmt_s*` oracles, plus the axioms the\nDECLARATION context introduces (uninterpreted sorts/functions and\ndatatype selectors). Nothing else may appear. *)\n"@
            + "Print Assumptions AdsmtCert.result.\n"@,
{
}

} // verus!
