use std::sync::Arc;

use adsmt_emit_rocq::certificate::{
    Certificate, DatatypeDecl, Formula, FunBody, FunDecl, Sequent, Signature, SortDecl, Step,
    StepBody, StepId,
};
use adsmt_emit_rocq::document::{ClassicalModuleFamily, ImportResolution};
use adsmt_emit_rocq::term::{render_type, Spine, Term, TermNode, Type, Var};
use adsmt_emit_rocq::{emit_rocq, emit_rocq_project, try_emit_rocq, MissingImports};

fn named(name: &str) -> Type {
    Type::Named(name.to_string())
}

fn prop_var() -> Var {
    Var { name: "p".to_string(), ty: named("Bool") }
}

fn p() -> Term {
    Term { equation: None, spine: None, node: TermNode::Var(prop_var()) }
}

fn constant(name: &str) -> Term {
    Term {
        equation: None,
        spine: Some(Spine { head: name.to_string(), args: vec![] }),
        node: TermNode::Const(name.to_string()),
    }
}

fn mk_not(t: fn() -> Term) -> Term {
    Term {
        equation: None,
        spine: Some(Spine { head: "not".to_string(), args: vec![Arc::new(t())] }),
        node: TermNode::App(Arc::new(constant("not")), Arc::new(t())),
    }
}

fn mk_eq(lhs: fn() -> Term, rhs: fn() -> Term) -> Term {
    let applied = Term {
        equation: None,
        spine: Some(Spine { head: "=".to_string(), args: vec![Arc::new(lhs())] }),
        node: TermNode::App(Arc::new(constant("=")), Arc::new(lhs())),
    };
    Term {
        equation: Some((Arc::new(lhs()), Arc::new(rhs()))),
        spine: Some(Spine {
            head: "=".to_string(),
            args: vec![Arc::new(lhs()), Arc::new(rhs())],
        }),
        node: TermNode::App(Arc::new(applied), Arc::new(rhs())),
    }
}

/// A formula whose only free variable is `p`.
fn about_p(term: Term) -> Formula {
    Formula { term, free_vars: vec![prop_var()] }
}

fn sequent(hyps: Vec<Formula>, concl: Term) -> Sequent {
    Sequent { hyps, concl: about_p(concl) }
}

fn assumption(id: u64, t: fn() -> Term) -> Step {
    Step {
        id: StepId(id),
        body: StepBody::Assume(t()),
        result: sequent(vec![about_p(t())], t()),
        comment: String::new(),
    }
}

fn refl(id: u64) -> Step {
    Step {
        id: StepId(id),
        body: StepBody::Refl(p()),
        result: sequent(vec![], mk_eq(p, p)),
        comment: String::new(),
    }
}

fn no_declarations() -> Signature {
    Signature {
        sorts: vec![],
        datatypes: vec![],
        funs: vec![],
        rocq_names: vec![],
        required_imports: vec![],
    }
}

fn cert(steps: Vec<Step>, conclusion: u64, concl: Term) -> Certificate {
    Certificate {
        steps,
        conclusion: StepId(conclusion),
        final_sequent: Some(sequent(vec![], concl)),
        signature: no_declarations(),
        trust_summary: String::new(),
    }
}

fn nothing_required() -> ImportResolution {
    ImportResolution { required: vec![], resolved: vec![], missing: vec![] }
}

fn propositional() -> ClassicalModuleFamily {
    ClassicalModuleFamily {
        name: "Propositional".to_string(),
        import_line: Some("From Stdlib Require Import Classical_Prop.".to_string()),
    }
}

fn fun_ext() -> ClassicalModuleFamily {
    ClassicalModuleFamily {
        name: "FunExt".to_string(),
        import_line: Some("From Stdlib Require Import FunctionalExtensionality.".to_string()),
    }
}

fn strings(names: &[&str]) -> Vec<String> {
    names.iter().map(|n| n.to_string()).collect()
}

/// A certificate whose declaration context exercises every shape: an uninterpreted sort, a
/// datatype with a nullary and an argument-bearing constructor plus selectors, an uninterpreted
/// function, and a defined function.
fn cert_with_declarations() -> Certificate {
    let mut c = cert(vec![assumption(0, p)], 0, p());
    c.signature.sorts.push(SortDecl { name: "Color".to_string(), arity: 0, builtin: false });
    c.signature.sorts.push(SortDecl { name: "Lst".to_string(), arity: 0, builtin: false });
    c.signature.datatypes.push(DatatypeDecl {
        sort_name: "Lst".to_string(),
        constructors: strings(&["nil", "cons"]),
        arities: vec![0, 2],
        selectors: vec![vec![], strings(&["hd", "tl"])],
        field_sorts: vec![vec![], strings(&["Int", "Lst"])],
        params: vec![],
    });
    c.signature.funs.push(FunDecl {
        name: "f".to_string(),
        params: strings(&["Int"]),
        param_names: vec![],
        result: "Bool".to_string(),
        body: None,
    });
    c.signature.funs.push(FunDecl {
        name: "g".to_string(),
        params: strings(&["Int"]),
        param_names: strings(&["x"]),
        result: "Int".to_string(),
        body: Some(FunBody::Rendered { text: "(x + 1)".to_string(), unmapped: vec![] }),
    });
    c
}

#[test]
fn a_higher_kinded_type_is_rendered_structurally() {
    let applied = Type::App(Arc::new(named("Seq")), Arc::new(named("Bool")));
    assert_eq!(render_type(&no_declarations(), &applied), "Seq Prop");
}

#[test]
fn every_declared_sort_and_datatype_reaches_the_output() {
    let cert = cert_with_declarations();
    let s = emit_rocq(&cert, nothing_required());
    for sort in cert.signature.sorts.iter().filter(|s| !s.builtin) {
        let declared = s.contains(&format!("Parameter {} : Type.", sort.name))
            || s.contains(&format!("Inductive {}", sort.name));
        assert!(declared, "sort `{}` missing from output:\n{s}", sort.name);
    }
    for d in &cert.signature.datatypes {
        assert!(s.contains(&format!("Inductive {}", d.sort_name)), "{s}");
        for c in &d.constructors {
            assert!(s.contains(&format!("| {c} :")), "ctor `{c}` missing:\n{s}");
        }
    }
}

#[test]
fn declarations_carry_arity_selectors_and_definitions() {
    let s = emit_rocq(&cert_with_declarations(), nothing_required());
    assert!(s.contains("| cons : Z -> Lst -> Lst"), "{s}");
    assert!(s.contains("| nil : Lst"), "{s}");
    assert!(s.contains("From Stdlib Require Import ZArith."), "{s}");
    assert!(s.contains("Parameter hd : Lst -> Z."), "{s}");
    assert!(s.contains("hd (cons x0 x1) = x0"), "{s}");
    assert!(s.contains("Parameter f : Z -> Prop."), "{s}");
    assert!(s.contains("Definition g (x : Z) : Z := (x + 1)."), "{s}");
    assert!(!s.contains("Parameter Lst : Type."), "{s}");
    assert!(s.contains("Axiom Color_nonempty : inhabited Color."), "{s}");
}

#[test]
fn target_logic_and_build_declaration_travel_with_the_file() {
    let proj = emit_rocq_project();
    assert!(proj.contains("AdsmtCert.v"), "{proj}");
    let s = emit_rocq(&cert(vec![assumption(0, p)], 0, p()), nothing_required());
    assert!(s.contains("Target logic: Rocq/Coq"), "{s}");
    assert!(s.contains("_CoqProject"), "{s}");
    assert!(s.contains("Print Assumptions AdsmtCert.result."), "{s}");
}

#[test]
fn header_and_module_present() {
    let s = emit_rocq(&cert(vec![assumption(0, p)], 0, p()), nothing_required());
    assert!(s.starts_with("(* Generated by adsmt-emit-rocq"));
    assert!(s.contains("From Ltac2 Require Import Ltac2."));
    assert!(s.contains("Set Default Proof Mode \"Ltac2\"."));
    assert!(s.contains("Module AdsmtCert."));
    assert!(s.contains("End AdsmtCert.\n"), "{s}");
    assert!(s.ends_with("Print Assumptions AdsmtCert.result.\n"), "{s}");
}

#[test]
fn ltac1_directives_absent() {
    let s = emit_rocq(&cert(vec![refl(0)], 0, mk_eq(p, p)), nothing_required());
    assert!(!s.contains("Set Default Proof Mode \"Classic\""));
    assert!(!s.contains("Require Import Ltac."));
}

#[test]
fn assume_becomes_a_section_hypothesis() {
    let s = emit_rocq(&cert(vec![assumption(0, p)], 0, p()), nothing_required());
    assert!(s.contains("Parameter p : Prop."));
    assert!(s.contains("Hypothesis s0 : p."), "{s}");
    assert!(!s.contains("Axiom s0 :"), "hypothesis was axiomatized:\n{s}");
    assert!(s.contains("Theorem result : p."));
    assert!(s.contains("Proof. exact s0. Qed."));
}

#[test]
fn refl_emits_reflexivity_proof() {
    let s = emit_rocq(&cert(vec![refl(0)], 0, mk_eq(p, p)), nothing_required());
    assert!(s.contains("Theorem s0 : p = p."));
    assert!(s.contains("Proof. reflexivity. Qed."));
}

#[test]
fn assumed_marker_becomes_a_named_oracle() {
    let step = Step {
        id: StepId(0),
        body: StepBody::Assumed {
            formula: p(),
            explain: Some("needs Functor MyType".to_string()),
        },
        result: sequent(vec![], p()),
        comment: "needs Functor MyType".to_string(),
    };
    let mut cert = cert(vec![step], 0, p());
    cert.trust_summary = "1 USER-SUPPLIED assumption(s)\n".to_string();
    let s = emit_rocq(&cert, nothing_required());
    assert!(
        s.contains("(* USER-SUPPLIED ASSUMPTION (not proved): needs Functor MyType *)"),
        "{s}"
    );
    assert!(s.contains("Axiom adsmt_assumed_s0 : p."), "{s}");
    assert!(s.contains("Theorem s0 : p."), "{s}");
    assert!(s.contains("exact adsmt_assumed_s0."), "{s}");
    assert!(!s.contains("Admitted."), "{s}");
    assert!(s.contains("1 USER-SUPPLIED assumption(s)"), "{s}");
}

fn not_p() -> Term {
    mk_not(p)
}

#[test]
fn negated_assumption_uses_rocq_negation() {
    let s = emit_rocq(&cert(vec![assumption(0, not_p)], 0, not_p()), nothing_required());
    assert!(s.contains("Hypothesis s0 : (~ p)."), "{s}");
    assert!(!s.contains("Axiom s0 :"), "{s}");
}

#[test]
fn theory_step_becomes_an_implication_oracle() {
    let theory = Step {
        id: StepId(1),
        body: StepBody::Theory {
            name: "EUF".to_string(),
            witness: "Opaque(smoke)".to_string(),
            tactic: None,
            parents: vec![StepId(0)],
        },
        result: sequent(vec![about_p(p())], p()),
        comment: String::new(),
    };
    let s = emit_rocq(&cert(vec![assumption(0, p), theory], 1, p()), nothing_required());
    assert!(s.contains("witness: Opaque(smoke)"), "{s}");
    assert!(s.contains("Axiom adsmt_s1 :"), "{s}");
    assert!(!s.contains("Axiom s1 :"), "{s}");
    assert!(s.contains(" -> "), "oracle is not an implication:\n{s}");
    assert!(s.contains("Axiom adsmt_s1 : p -> p.\n"), "{s}");
    assert!(s.contains("Theorem s1 : p.\nProof. exact (adsmt_s1 s0). Qed.\n"), "{s}");
}

#[test]
fn no_classical_imports_for_intuitionistic_cert() {
    let s = emit_rocq(&cert(vec![assumption(0, p)], 0, p()), nothing_required());
    assert!(!s.contains("Classical_Prop"));
    assert!(!s.contains("Classical_Pred_Type"));
    assert!(!s.contains("ClassicalEpsilon"));
    assert!(!s.contains("FunctionalExtensionality"));
}

#[test]
fn should_marker_propositional_emits_classical_prop() {
    let imports = ImportResolution {
        required: vec![],
        resolved: vec![propositional()],
        missing: vec![],
    };
    let s = emit_rocq(&cert(vec![assumption(0, p)], 0, p()), imports);
    assert!(s.contains("From Stdlib Require Import Classical_Prop."));
    let prelude_pos = s.find("Set Default Proof Mode \"Ltac2\".").unwrap();
    let classical_pos = s.find("From Stdlib Require Import Classical_Prop.").unwrap();
    let module_pos = s.find("Module AdsmtCert.").unwrap();
    assert!(prelude_pos < classical_pos);
    assert!(classical_pos < module_pos);
}

#[test]
fn try_emit_rocq_returns_error_when_required_uncovered() {
    let imports = ImportResolution {
        required: vec![propositional()],
        resolved: vec![],
        missing: vec![(StepId(0), propositional())],
    };
    let result = try_emit_rocq(&cert(vec![assumption(0, p)], 0, p()), imports);
    assert!(matches!(result, Err(MissingImports(_))));
}

#[test]
fn trans_emits_proof_term_not_admitted() {
    let trans = Step {
        id: StepId(2),
        body: StepBody::Trans { lhs: StepId(0), rhs: StepId(1) },
        result: sequent(vec![], p()),
        comment: String::new(),
    };
    let s = emit_rocq(
        &cert(vec![assumption(0, p), assumption(1, p), trans], 2, p()),
        nothing_required(),
    );
    assert!(s.contains("Proof. exact (eq_trans s0 s1). Qed."));
    assert!(!s.contains("Admitted. (* eapply eq_trans"));
}

#[test]
fn eqmp_emits_proof_term_not_admitted() {
    let eqmp = Step {
        id: StepId(2),
        body: StepBody::EqMp { iff: StepId(0), p: StepId(1) },
        result: sequent(vec![], p()),
        comment: String::new(),
    };
    let s = emit_rocq(
        &cert(vec![assumption(0, p), assumption(1, p), eqmp], 2, p()),
        nothing_required(),
    );
    assert!(s.contains("Proof. exact (proj1 s0 s1). Qed."));
    assert!(!s.contains("Admitted. (* apply (proj1"));
}

/// A block's markers reach the emitter as the families that they resolve to.
#[test]
fn mid_block_marker_propagates_to_rocq_import() {
    let imports = ImportResolution {
        required: vec![],
        resolved: vec![propositional()],
        missing: vec![],
    };
    let s = emit_rocq(&cert(vec![assumption(0, p)], 0, p()), imports);
    assert!(s.contains("From Stdlib Require Import Classical_Prop."));
}

/// A pattern's markers reach the emitter as the families that they resolve to.
#[test]
fn pattern_marker_propagates_to_rocq_import() {
    let imports =
        ImportResolution { required: vec![], resolved: vec![fun_ext()], missing: vec![] };
    let s = emit_rocq(&cert(vec![assumption(0, p)], 0, p()), imports);
    assert!(s.contains("From Stdlib Require Import FunctionalExtensionality."));
}

#[test]
fn try_emit_rocq_succeeds_when_marker_covers_requirement() {
    let imports = ImportResolution {
        required: vec![propositional()],
        resolved: vec![propositional()],
        missing: vec![],
    };
    let result = try_emit_rocq(&cert(vec![assumption(0, p)], 0, p()), imports);
    assert!(result.is_ok());
    let s = result.unwrap();
    assert!(s.contains("From Stdlib Require Import Classical_Prop."));
}

#[test]
fn the_whole_file_of_one_assumption() {
    let mut cert = cert(vec![assumption(0, p)], 0, p());
    cert.trust_summary = "trusts nothing\r\nat all\n".to_string();
    let s = emit_rocq(&cert, nothing_required());
    let expected = "(* Generated by adsmt-emit-rocq (Rocq/Coq reflection, Ltac2) *)\n\
(* One Parameter per free term variable, one decl per cert step *)\n\
(* Target logic: Rocq/Coq `Prop` with Stdlib.Logic + Ltac2. *)\n\
(* Build declaration - write this next to the file as `_CoqProject`:\n     \
-R . AdsmtCert\n     # depends on Ltac2 (with Rocq since 8.10)\n     \
-arg -w -arg -notation-overridden\n     AdsmtCert.v\n\
*)\n\
From Stdlib Require Import Logic.\n\
From Ltac2 Require Import Ltac2.\n\
Set Default Proof Mode \"Ltac2\".\n\
\n\
(* trusts nothing *)\n\
(* at all *)\n\
\n\
Module AdsmtCert.\n\
\n\
Parameter p : Prop.\n\
\n\
Section Proof.\n\
\n\
Hypothesis s0 : p.\n\
\n\
Theorem result : p.\n\
Proof. exact s0. Qed.\n\
\n\
End Proof.\n\
\n\
End AdsmtCert.\n\
\n\
(* Trust surface: the `adsmt_s*` oracles, plus the axioms the\n\
DECLARATION context introduces (uninterpreted sorts/functions and\n\
datatype selectors). Nothing else may appear. *)\n\
Print Assumptions AdsmtCert.result.\n";
    assert_eq!(s, expected);
}

#[test]
fn uncovered_requirements_are_reported_by_step_and_family() {
    let imports = ImportResolution {
        required: vec![propositional()],
        resolved: vec![],
        missing: vec![(StepId(3), propositional()), (StepId(12), fun_ext())],
    };
    match try_emit_rocq(&cert(vec![assumption(0, p)], 0, p()), imports) {
        Ok(s) => panic!("{s}"),
        Err(missing) => {
            assert_eq!(missing.0.len(), 2);
            assert_eq!(missing.0[0].0, StepId(3));
            assert_eq!(missing.0[1].1.name, "FunExt");
            assert_eq!(
                missing.message(),
                "adsmt-emit-rocq: cert has uncovered classical-axiom requirements: \
                 [s3:Propositional, s12:FunExt]. \
                 Add `should_import_classical` or `allow_to_import_classical` \
                 markers on the offending steps."
            );
        }
    }
}

#[test]
fn missing_entries_without_requirements_do_not_fail() {
    let imports = ImportResolution {
        required: vec![],
        resolved: vec![],
        missing: vec![(StepId(0), fun_ext())],
    };
    assert!(try_emit_rocq(&cert(vec![assumption(0, p)], 0, p()), imports).is_ok());
}

#[test]
fn a_family_without_an_import_line_imports_nothing() {
    let silent = ClassicalModuleFamily { name: "Silent".to_string(), import_line: None };
    let imports = ImportResolution {
        required: vec![],
        resolved: vec![silent, propositional()],
        missing: vec![],
    };
    let s = emit_rocq(&cert(vec![assumption(0, p)], 0, p()), imports);
    assert!(s.contains(
        "Set Default Proof Mode \"Ltac2\".\nFrom Stdlib Require Import Classical_Prop.\n\n"
    ));
}

#[test]
fn a_certificate_without_a_final_sequent_has_no_result() {
    let mut cert = cert(vec![assumption(0, p)], 0, p());
    cert.final_sequent = None;
    let s = emit_rocq(&cert, nothing_required());
    assert!(!s.contains("Theorem result"), "{s}");
    assert!(s.contains("Hypothesis s0 : p.\n\nEnd Proof.\n"), "{s}");
}

#[test]
fn the_prelude_imports_what_the_declarations_need() {
    let mut cert = cert(vec![assumption(0, p)], 0, p());
    cert.signature.funs.push(FunDecl {
        name: "f".to_string(),
        params: strings(&["Int"]),
        param_names: vec![],
        result: "Real".to_string(),
        body: None,
    });
    cert.signature.required_imports = strings(&["Stdlib.Lists.List", "Arith"]);
    let s = emit_rocq(&cert, nothing_required());
    assert!(
        s.contains(
            "From Stdlib Require Import Logic.\n\
             From Stdlib Require Import ZArith.\n\
             From Stdlib Require Import Reals.\n\
             Require Import Stdlib.Lists.List.\n\
             Require Import Arith.\n\
             From Ltac2 Require Import Ltac2.\n\
             Set Default Proof Mode \"Ltac2\".\n\
             Open Scope Z_scope.\n\n"
        ),
        "{s}"
    );
}

#[test]
fn the_build_declaration_names_ltac2_and_the_file() {
    assert_eq!(
        emit_rocq_project(),
        "-R . AdsmtCert\n# depends on Ltac2 (with Rocq since 8.10)\n\
         -arg -w -arg -notation-overridden\nAdsmtCert.v\n"
    );
}

#[test]
fn a_sort_with_a_telling_letter_imports_nothing() {
    let mut cert = cert(vec![refl(0)], 0, mk_eq(p, p));
    cert.steps[0].result.concl.free_vars =
        vec![Var { name: "x".to_string(), ty: named("Zone") }];
    let s = emit_rocq(&cert, nothing_required());
    assert!(s.contains("Parameter x : Zone.\n"), "{s}");
    assert!(!s.contains("ZArith"), "{s}");
    assert!(!s.contains("Z_scope"), "{s}");
    assert!(!s.contains("Reals"), "{s}");
}

fn free_f() -> Term {
    let f = Var { name: "f".to_string(), ty: named("Int") };
    Term { equation: None, spine: None, node: TermNode::Var(f) }
}

#[test]
fn a_mapped_function_is_written_by_its_rocq_name() {
    let mut cert = cert(vec![assumption(0, free_f)], 0, free_f());
    cert.signature.funs.push(FunDecl {
        name: "f".to_string(),
        params: strings(&["Int"]),
        param_names: vec![],
        result: "Int".to_string(),
        body: None,
    });
    cert.signature.rocq_names.push(("f".to_string(), "Z.abs".to_string()));
    let s = emit_rocq(&cert, nothing_required());
    assert!(s.contains("Hypothesis s0 : Z.abs.\n"), "{s}");
    assert!(s.contains("Theorem result : Z.abs.\n"), "{s}");
    assert!(!s.contains(": f"), "{s}");
    assert!(!s.contains("Parameter f"), "{s}");
}
