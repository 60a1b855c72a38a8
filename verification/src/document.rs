//! The Rocq file of a certificate.
//!
//! The file is the body of the certificate between a prelude and a closing query. Which classical
//! modules the prelude imports is resolved with the body at hand ([`render_body`]), since a marker
//! may ask for a module only where the body uses its axioms.
use vstd::prelude::*;

use crate::certificate::{Certificate, StepId};
use crate::declarations::{declares, emit_declarations, rocq_declarations};
use crate::steps::{emit_oracles, emit_step, rocq_oracles, rocq_step, step_name};
use crate::symbols::{
    collect_free_vars, free_vars, needs_integers, needs_reals, numeric_imports, pair_texts,
    unmapped, unmapped_constants,
};
use crate::term::{render_term, rocq_term};
use crate::text::{decimal, lines, lines_of, pieces, texts, NameSet};

verus! {

/// A family of classical axioms: its name, and the line that imports it into Rocq where Rocq needs
/// one.
#[derive(Debug)]
pub struct ClassicalModuleFamily {
    pub name: String,
    pub import_line: Option<String>,
}

/// How the classical requirements of a certificate were resolved: the families its steps require,
/// those it may import, and each requirement that no marker covers.
#[derive(Debug)]
pub struct ImportResolution {
    pub required: Vec<ClassicalModuleFamily>,
    pub resolved: Vec<ClassicalModuleFamily>,
    pub missing: Vec<(StepId, ClassicalModuleFamily)>,
}

/// The requirements that no marker covers: the step and the family of each.
#[derive(Debug)]
pub struct MissingImports(pub Vec<(StepId, ClassicalModuleFamily)>);

impl ImportResolution {
    /// Nothing is required, or everything required is covered.
    pub open spec fn is_covered(self) -> bool {
        self.required@.len() == 0 || self.missing@.len() == 0
    }

    /// Whether the certificate may be emitted.
    pub fn covered(&self) -> (r: bool)
        ensures
            r == self.is_covered(),
            r == (self.required@.len() == 0 || self.missing@.len() == 0),
    {
        self.required.len() == 0 || self.missing.len() == 0
    }
}

/// The build declaration of the emitted file: where its module lives, the Ltac2 dependency, the
/// warnings it switches off, and the file.
pub open spec fn rocq_project() -> Seq<char> {
    "-R . AdsmtCert\n"@ + "# depends on Ltac2 (with Rocq since 8.10)\n"@
        + "-arg -w -arg -notation-overridden\n"@ + "AdsmtCert.v\n"@
}

/// The `_CoqProject` that builds the emitted file.
pub fn emit_rocq_project() -> (r: String)
    ensures
        r@ == rocq_project(),
{
    let mut out: String = "-R . AdsmtCert\n".to_owned();
    out.append("# depends on Ltac2 (with Rocq since 8.10)\n");
    out.append("-arg -w -arg -notation-overridden\n");
    out.append("AdsmtCert.v\n");
    out
}

/// A comment for each symbol that Rocq may not know.
pub open spec fn symbol_piece(symbols: Seq<Seq<char>>) -> spec_fn(int) -> Seq<char> {
    |i: int|
        "(* UNMAPPED SYMBOL: `"@ + symbols[i]
            + "` is emitted verbatim and may not parse in Rocq. *)\n"@
}

/// Each line as a comment of its own.
pub open spec fn comment_piece(lines: Seq<Seq<char>>) -> spec_fn(int) -> Seq<char> {
    |i: int| "(* "@ + lines[i] + " *)\n"@
}

/// What the file says of itself before its module: unmapped symbols, then what the proof trusts.
pub open spec fn rocq_notes(cert: Certificate) -> Seq<char> {
    pieces(unmapped(cert).len(), symbol_piece(unmapped(cert))) + pieces(
        lines_of(cert.trust_summary@).len(),
        comment_piece(lines_of(cert.trust_summary@)),
    ) + "\n"@
}

fn render_notes(cert: &Certificate) -> (r: String)
    ensures
        r@ == rocq_notes(*cert),
{
    let symbols: Vec<String> = unmapped_constants(cert);
    let mut out: String = String::new();
    for i in 0..symbols.len()
        invariant
            texts(symbols@) == unmapped(*cert),
            out@ == pieces(i as nat, symbol_piece(unmapped(*cert))),
    {
        assert(texts(symbols@)[i as int] == symbols@[i as int]@);
        let mut note: String = "(* UNMAPPED SYMBOL: `".to_owned();
        note.append(symbols[i].as_str());
        note.append("` is emitted verbatim and may not parse in Rocq. *)\n");
        out.append(note.as_str());
    }
    assert(unmapped(*cert).len() == symbols@.len());
    let trust: Vec<String> = lines(cert.trust_summary.as_str());
    let mut comments: String = String::new();
    for i in 0..trust.len()
        invariant
            texts(trust@) == lines_of(cert.trust_summary@),
            comments@ == pieces(i as nat, comment_piece(lines_of(cert.trust_summary@))),
    {
        assert(texts(trust@)[i as int] == trust@[i as int]@);
        let mut comment: String = "(* ".to_owned();
        comment.append(trust[i].as_str());
        comment.append(" *)\n");
        comments.append(comment.as_str());
    }
    assert(lines_of(cert.trust_summary@).len() == trust@.len());
    out.append(comments.as_str());
    out.append("\n");
    out
}

/// The free variable at a position as a parameter, or nothing where the declaration context
/// accounts for its name.
pub open spec fn parameter_piece(cert: Certificate) -> spec_fn(int) -> Seq<char> {
    |i: int|
        {
            let v = free_vars(cert)[i];
            if declares(cert.signature, v.0) {
                Seq::empty()
            } else {
                "Parameter "@ + v.0 + " : "@ + v.1 + ".\n"@
            }
        }
}

/// Some free variable has to be declared.
pub open spec fn has_parameter(cert: Certificate) -> bool {
    exists|i: int|
        0 <= i < free_vars(cert).len() && !declares(
            cert.signature,
            (#[trigger] free_vars(cert)[i]).0,
        )
}

/// The free variables that the declaration context does not account for.
pub open spec fn rocq_parameters(cert: Certificate) -> Seq<char> {
    if has_parameter(cert) {
        pieces(free_vars(cert).len(), parameter_piece(cert)) + "\n"@
    } else {
        Seq::empty()
    }
}

proof fn lemma_no_parameters(cert: Certificate, n: nat)
    requires
        n <= free_vars(cert).len(),
        forall|i: int|
            0 <= i < n ==> declares(cert.signature, (#[trigger] free_vars(cert)[i]).0),
    ensures
        pieces(n, parameter_piece(cert)) == Seq::<char>::empty(),
    decreases n,
{
    if n > 0 {
        lemma_no_parameters(cert, (n - 1) as nat);
        assert(declares(cert.signature, free_vars(cert)[n - 1].0));
    }
}

fn render_parameters(cert: &Certificate, declared: &NameSet) -> (r: String)
    requires
        forall|n: Seq<char>| #[trigger] declared@.contains(n) == declares(cert.signature, n),
    ensures
        r@ == rocq_parameters(*cert),
{
    let vars: Vec<(String, String)> = collect_free_vars(cert);
    let ghost entries = free_vars(*cert);
    let mut out: String = String::new();
    let mut any: bool = false;
    for i in 0..vars.len()
        invariant
            entries == free_vars(*cert),
            pair_texts(vars@) == entries,
            forall|n: Seq<char>| #[trigger] declared@.contains(n) == declares(cert.signature, n),
            out@ == pieces(i as nat, parameter_piece(*cert)),
            any == (exists|j: int|
                0 <= j < i && !declares(cert.signature, (#[trigger] entries[j]).0)),
    {
        assert(entries[i as int] == (vars@[i as int].0@, vars@[i as int].1@));
        if !declared.contains(vars[i].0.as_str()) {
            let mut parameter: String = "Parameter ".to_owned();
            parameter.append(vars[i].0.as_str());
            parameter.append(" : ");
            parameter.append(vars[i].1.as_str());
            parameter.append(".\n");
            out.append(parameter.as_str());
            any = true;
        } else {
            assert(out@ + Seq::<char>::empty() =~= out@);
        }
    }
    assert(entries.len() == vars@.len());
    if any {
        out.append("\n");
    } else {
        proof {
            lemma_no_parameters(*cert, entries.len());
        }
    }
    out
}

/// The step at a position.
pub open spec fn step_piece(cert: Certificate) -> spec_fn(int) -> Seq<char> {
    |i: int| rocq_step(cert, cert.steps@[i])
}

/// The goal, proved by the concluding step. Inside the section this is the bare conclusion;
/// closing the section generalises it over the hypotheses.
pub open spec fn rocq_result(cert: Certificate) -> Seq<char> {
    match cert.final_sequent {
        Some(sequent) => "\nTheorem result : "@ + rocq_term(
            cert.signature,
            sequent.concl.term,
        ) + ".\nProof. exact "@ + step_name(cert.conclusion) + ". Qed.\n"@,
        None => Seq::empty(),
    }
}

fn render_result(cert: &Certificate) -> (r: String)
    ensures
        r@ == rocq_result(*cert),
{
    match &cert.final_sequent {
        Some(sequent) => {
            let mut name: String = "s".to_owned();
            name.append(decimal(cert.conclusion.0).as_str());
            let mut out: String = "\nTheorem result : ".to_owned();
            out.append(render_term(&cert.signature, &sequent.concl.term).as_str());
            out.append(".\nProof. exact ");
            out.append(name.as_str());
            out.append(". Qed.\n");
            out
        },
        None => String::new(),
    }
}

/// The body of the file: the notes, and the module with declarations, oracles and the section in
/// which the proof stands.
pub open spec fn rocq_body(cert: Certificate) -> Seq<char> {
    rocq_notes(cert) + "Module AdsmtCert.\n\n"@ + rocq_declarations(cert.signature)
        + rocq_parameters(cert) + rocq_oracles(cert) + "Section Proof.\n\n"@ + pieces(
        cert.steps@.len(),
        step_piece(cert),
    ) + rocq_result(cert) + "\nEnd Proof.\n"@ + "\nEnd AdsmtCert.\n"@
}

/// Writes the body of the file: the text in which uses of classical axioms are looked for.
pub fn render_body(cert: &Certificate) -> (r: String)
    ensures
        r@ == rocq_body(*cert),
{
    let mut steps: String = String::new();
    for i in 0..cert.steps.len()
        invariant
            steps@ == pieces(i as nat, step_piece(*cert)),
    {
        emit_step(cert, &cert.steps[i], &mut steps);
    }
    let mut out: String = render_notes(cert);
    out.append("Module AdsmtCert.\n\n");
    let declared: NameSet = emit_declarations(cert, &mut out);
    out.append(render_parameters(cert, &declared).as_str());
    emit_oracles(cert, &mut out);
    out.append("Section Proof.\n\n");
    out.append(steps.as_str());
    out.append(render_result(cert).as_str());
    out.append("\nEnd Proof.\n");
    out.append("\nEnd AdsmtCert.\n");
    out
}

/// Each line indented.
pub open spec fn indented_piece(lines: Seq<Seq<char>>) -> spec_fn(int) -> Seq<char> {
    |i: int| "     "@ + lines[i] + "\n"@
}

/// The opening comments: where the file comes from, its target logic, how it is built.
pub open spec fn rocq_header() -> Seq<char> {
    "(* Generated by adsmt-emit-rocq (Rocq/Coq reflection, Ltac2) *)\n"@
        + "(* One Parameter per free term variable, one decl per cert step *)\n"@
        + "(* Target logic: Rocq/Coq `Prop` with Stdlib.Logic + Ltac2. *)\n"@
        + "(* Build declaration - write this next to the file as `_CoqProject`:\n"@ + pieces(
        lines_of(rocq_project()).len(),
        indented_piece(lines_of(rocq_project())),
    ) + "*)\n"@
}

fn render_header() -> (r: String)
    ensures
        r@ == rocq_header(),
{
    let project: Vec<String> = lines(emit_rocq_project().as_str());
    let mut indented: String = String::new();
    for i in 0..project.len()
        invariant
            texts(project@) == lines_of(rocq_project()),
            indented@ == pieces(i as nat, indented_piece(lines_of(rocq_project()))),
    {
        assert(texts(project@)[i as int] == project@[i as int]@);
        let mut line: String = "     ".to_owned();
        line.append(project[i].as_str());
        line.append("\n");
        indented.append(line.as_str());
    }
    assert(lines_of(rocq_project()).len() == project@.len());
    let mut out: String =
        "(* Generated by adsmt-emit-rocq (Rocq/Coq reflection, Ltac2) *)\n".to_owned();
    out.append("(* One Parameter per free term variable, one decl per cert step *)\n");
    out.append("(* Target logic: Rocq/Coq `Prop` with Stdlib.Logic + Ltac2. *)\n");
    out.append("(* Build declaration - write this next to the file as `_CoqProject`:\n");
    out.append(indented.as_str());
    out.append("*)\n");
    out
}

/// An import for each module that the declaration context needs.
pub open spec fn required_piece(modules: Seq<String>) -> spec_fn(int) -> Seq<char> {
    |i: int| "Require Import "@ + modules[i]@ + ".\n"@
}

/// The import line of the family at a position, or nothing where it has none.
pub open spec fn classical_piece(families: Seq<ClassicalModuleFamily>) -> spec_fn(
    int,
) -> Seq<char> {
    |i: int|
        match families[i].import_line {
            Some(line) => line@ + "\n"@,
            None => Seq::empty(),
        }
}

/// `text` where the condition holds, nothing where it does not.
pub open spec fn only_if(condition: bool, text: Seq<char>) -> Seq<char> {
    if condition {
        text
    } else {
        Seq::empty()
    }
}

/// The fixed prelude: the logic, the numeric theories that the certificate needs, the modules that
/// its declarations need, and Ltac2 as the tactic language of every proof.
pub open spec fn rocq_prelude(cert: Certificate) -> Seq<char> {
    "From Stdlib Require Import Logic.\n"@ + only_if(
        needs_integers(cert),
        "From Stdlib Require Import ZArith.\n"@,
    ) + only_if(needs_reals(cert), "From Stdlib Require Import Reals.\n"@) + pieces(
        cert.signature.required_imports@.len(),
        required_piece(cert.signature.required_imports@),
    ) + "From Ltac2 Require Import Ltac2.\n"@ + "Set Default Proof Mode \"Ltac2\".\n"@ + only_if(
        needs_integers(cert),
        "Open Scope Z_scope.\n"@,
    )
}

fn render_prelude(cert: &Certificate) -> (r: String)
    ensures
        r@ == rocq_prelude(*cert),
{
    let (integers, reals): (bool, bool) = numeric_imports(cert);
    let modules: &Vec<String> = &cert.signature.required_imports;
    let mut required: String = String::new();
    for i in 0..modules.len()
        invariant
            required@ == pieces(i as nat, required_piece(modules@)),
    {
        let mut line: String = "Require Import ".to_owned();
        line.append(modules[i].as_str());
        line.append(".\n");
        required.append(line.as_str());
    }
    let mut out: String = "From Stdlib Require Import Logic.\n".to_owned();
    out.append(text_if(integers, "From Stdlib Require Import ZArith.\n").as_str());
    out.append(text_if(reals, "From Stdlib Require Import Reals.\n").as_str());
    out.append(required.as_str());
    out.append("From Ltac2 Require Import Ltac2.\n");
    out.append("Set Default Proof Mode \"Ltac2\".\n");
    out.append(text_if(integers, "Open Scope Z_scope.\n").as_str());
    out
}

fn text_if(condition: bool, text: &str) -> (r: String)
    ensures
        r@ == only_if(condition, text@),
{
    if condition {
        text.to_owned()
    } else {
        String::new()
    }
}

/// The imports of the resolved classical families, and the blank line after them.
pub open spec fn rocq_classical(families: Seq<ClassicalModuleFamily>) -> Seq<char> {
    pieces(families.len(), classical_piece(families)) + "\n"@
}

fn render_classical(families: &Vec<ClassicalModuleFamily>) -> (r: String)
    ensures
        r@ == rocq_classical(families@),
{
    let mut out: String = String::new();
    for i in 0..families.len()
        invariant
            out@ == pieces(i as nat, classical_piece(families@)),
    {
        match &families[i].import_line {
            Some(line) => {
                let mut import: String = line.clone();
                import.append("\n");
                out.append(import.as_str());
            },
            None => {
                assert(out@ + Seq::<char>::empty() =~= out@);
            },
        }
    }
    out.append("\n");
    out
}

/// The closing query, which lists exactly the axioms that the result leans on.
pub open spec fn rocq_query() -> Seq<char> {
    "\n(* Trust surface: the `adsmt_s*` oracles, plus the axioms the\nDECLARATION context introduces (uninterpreted sorts/functions and\ndatatype selectors). Nothing else may appear. *)\n"@
        + "Print Assumptions AdsmtCert.result.\n"@
}

/// The Rocq file of a certificate that imports these classical families.
pub open spec fn rocq_file(
    cert: Certificate,
    families: Seq<ClassicalModuleFamily>,
) -> Seq<char> {
    rocq_header() + rocq_prelude(cert) + rocq_classical(families) + rocq_body(cert) + rocq_query()
}

fn render_file(cert: &Certificate, families: &Vec<ClassicalModuleFamily>) -> (r: String)
    ensures
        r@ == rocq_file(*cert, families@),
{
    let mut query: String =
        "\n(* Trust surface: the `adsmt_s*` oracles, plus the axioms the\nDECLARATION context introduces (uninterpreted sorts/functions and\ndatatype selectors). Nothing else may appear. *)\n".to_owned();
    query.append("Print Assumptions AdsmtCert.result.\n");
    let mut out: String = render_header();
    out.append(render_prelude(cert).as_str());
    out.append(render_classical(families).as_str());
    out.append(render_body(cert).as_str());
    out.append(query.as_str());
    out
}

/// Writes the Rocq file of a certificate, or returns the classical requirements that no marker
/// covers.
pub fn try_emit_rocq(cert: &Certificate, imports: ImportResolution) -> (r: Result<
    String,
    MissingImports,
>)
    ensures
        match r {
            Ok(text) => {
                &&& imports.required@.len() == 0 || imports.missing@.len() == 0
                &&& text@ == rocq_file(*cert, imports.resolved@)
            },
            Err(missing) => {
                &&& imports.required@.len() > 0 && imports.missing@.len() > 0
                &&& missing.0 == imports.missing
            },
        },
{
    if imports.covered() {
        Ok(render_file(cert, &imports.resolved))
    } else {
        Err(MissingImports(imports.missing))
    }
}

/// Writes the Rocq file of a certificate whose classical requirements are covered.
pub fn emit_rocq(cert: &Certificate, imports: ImportResolution) -> (r: String)
    requires
        imports.required@.len() == 0 || imports.missing@.len() == 0,
    ensures
        r@ == rocq_file(*cert, imports.resolved@),
{
    render_file(cert, &imports.resolved)
}

/// The requirements as `s<step>:<family>`, separated by commas.
pub open spec fn requirement_list(missing: Seq<(StepId, ClassicalModuleFamily)>) -> Seq<char>
    decreases missing.len(),
{
    if missing.len() == 0 {
        Seq::empty()
    } else {
        let last = step_name(missing.last().0) + ":"@ + missing.last().1.name@;
        if missing.len() == 1 {
            last
        } else {
            requirement_list(missing.drop_last()) + ", "@ + last
        }
    }
}

/// What the author of a certificate with these uncovered requirements is told.
pub open spec fn missing_message(missing: Seq<(StepId, ClassicalModuleFamily)>) -> Seq<char> {
    "adsmt-emit-rocq: cert has uncovered classical-axiom requirements: ["@ + requirement_list(
        missing,
    )
        + "]. Add `should_import_classical` or `allow_to_import_classical` markers on the offending steps."@
}

impl MissingImports {
    /// What to tell the author of a certificate with uncovered requirements.
    pub fn message(&self) -> (r: String)
        ensures
            r@ == missing_message(self.0@),
            r@ == "adsmt-emit-rocq: cert has uncovered classical-axiom requirements: ["@
                + requirement_list(self.0@)
                + "]. Add `should_import_classical` or `allow_to_import_classical` markers on the offending steps."@,
    {
        let mut list: String = String::new();
        for i in 0..self.0.len()
            invariant
                list@ == requirement_list(self.0@.take(i as int)),
        {
            proof {
                assert(self.0@.take(i + 1).drop_last() =~= self.0@.take(i as int));
                assert(self.0@.take(i + 1).last() == self.0@[i as int]);
            }
            let mut entry: String = "s".to_owned();
            entry.append(decimal(self.0[i].0.0).as_str());
            entry.append(":");
            entry.append(self.0[i].1.name.as_str());
            if i == 0 {
                list = entry;
            } else {
                list.append(", ");
                list.append(entry.as_str());
            }
        }
        assert(self.0@.take(self.0@.len() as int) =~= self.0@);
        let mut out: String =
            "adsmt-emit-rocq: cert has uncovered classical-axiom requirements: [".to_owned();
        out.append(list.as_str());
        out.append(
            "]. Add `should_import_classical` or `allow_to_import_classical` markers on the offending steps.",
        );
        out
    }
}

} // verus!
