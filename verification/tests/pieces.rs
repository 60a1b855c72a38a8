use std::sync::Arc;

use adsmt_emit_rocq::certificate::{
    Certificate, DatatypeDecl, Formula, FunBody, FunDecl, Sequent, Signature, SortDecl, Step,
    StepBody, StepId,
};
use adsmt_emit_rocq::declarations::{emit_declarations, fun_type_in, is_declared};
use adsmt_emit_rocq::document::render_body;
use adsmt_emit_rocq::protocol::{diagnostic, exit_code, Outcome};
use adsmt_emit_rocq::steps::{
    comment_text, emit_oracles, emit_step, oracle_name, rocq_implication_str, step_concl,
};
use adsmt_emit_rocq::symbols::{collect_free_vars, numeric_imports};
use adsmt_emit_rocq::term::{
    infix, render_sort_name, render_term, render_type, Spine, Term, TermNode, Type, Var,
};
use adsmt_emit_rocq::text::{contains_word, decimal, lines, numeral, same, words, NameSet};
use adsmt_emit_rocq::unmapped_constants;

fn strings(names: &[&str]) -> Vec<String> {
    names.iter().map(|n| n.to_string()).collect()
}

fn named(name: &str) -> Type {
    Type::Named(name.to_string())
}

fn fun(dom: Type, cod: Type) -> Type {
    Type::Fun { dom: Arc::new(dom), cod: Arc::new(cod), applied: true }
}

fn var(name: &str) -> Term {
    Term { equation: None, spine: None, node: TermNode::Var(typed(name, named("Bool"))) }
}

fn typed(name: &str, ty: Type) -> Var {
    Var { name: name.to_string(), ty }
}

fn constant(name: &str) -> Term {
    Term {
        equation: None,
        spine: Some(Spine { head: name.to_string(), args: vec![] }),
        node: TermNode::Const(name.to_string()),
    }
}

/// An application whose head the kernel does not name.
fn app(f: Term, x: Term) -> Term {
    Term { equation: None, spine: None, node: TermNode::App(Arc::new(f), Arc::new(x)) }
}

fn unary(head: &str, x: &str) -> Term {
    Term {
        equation: None,
        spine: Some(Spine { head: head.to_string(), args: vec![Arc::new(var(x))] }),
        node: TermNode::App(Arc::new(constant(head)), Arc::new(var(x))),
    }
}

fn binary(head: &str, x: &str, y: &str) -> Term {
    Term {
        equation: None,
        spine: Some(Spine {
            head: head.to_string(),
            args: vec![Arc::new(var(x)), Arc::new(var(y))],
        }),
        node: TermNode::App(Arc::new(unary(head, x)), Arc::new(var(y))),
    }
}

fn lam(v: Var, body: Term) -> Term {
    Term { equation: None, spine: None, node: TermNode::Lam(v, Arc::new(body)) }
}

fn formula(term: Term, free_vars: Vec<Var>) -> Formula {
    Formula { term, free_vars }
}

fn step(id: u64, body: StepBody, concl: Term) -> Step {
    Step {
        id: StepId(id),
        body,
        result: Sequent { hyps: vec![], concl: formula(concl, vec![]) },
        comment: String::new(),
    }
}

fn no_names() -> Signature {
    Signature {
        sorts: vec![],
        datatypes: vec![],
        funs: vec![],
        rocq_names: vec![],
        required_imports: vec![],
    }
}

fn cert(steps: Vec<Step>) -> Certificate {
    Certificate {
        steps,
        conclusion: StepId(0),
        final_sequent: None,
        signature: no_names(),
        trust_summary: String::new(),
    }
}

fn emitted(step: &Step) -> String {
    let mut out = String::from("before ");
    emit_step(&cert(vec![]), step, &mut out);
    out.strip_prefix("before ").unwrap().to_string()
}

fn oracles(cert: &Certificate) -> String {
    let mut out = String::new();
    emit_oracles(cert, &mut out);
    out
}

fn declarations(cert: &Certificate) -> (String, NameSet) {
    let mut out = String::from("> ");
    let declared = emit_declarations(cert, &mut out);
    (out.strip_prefix("> ").unwrap().to_string(), declared)
}

#[test]
fn numbers_are_written_in_decimal() {
    assert_eq!(decimal(0), "0");
    assert_eq!(decimal(9), "9");
    assert_eq!(decimal(10), "10");
    assert_eq!(decimal(1056), "1056");
    assert_eq!(decimal(u64::MAX), "18446744073709551615");
}

#[test]
fn lines_agree_with_the_standard_ones() {
    for text in ["", "\n", "a", "a\n", "a\r\nb", "\r\n\r\n", "a\r", "a\rb\n\nβ\n", "x\n\r\n y"] {
        let expected: Vec<String> = text.lines().map(|l| l.to_string()).collect();
        assert_eq!(lines(text), expected, "{text:?}");
    }
}

#[test]
fn small_text_tests() {
    assert!(same("β", "β"));
    assert!(!same("a", "b"));
    assert!(contains_word("Seq Int", "Int"));
    assert!(contains_word("(Array Int (Seq Real))", "Real"));
    assert!(contains_word("Int", "Int"));
    assert!(!contains_word("Seq Int", "Seq Int"));
    assert!(!contains_word("Interval", "Int"));
    assert!(!contains_word("", "Int"));
    assert!(numeral("-12"));
    assert!(numeral("0"));
    assert!(numeral("-"));
    assert!(!numeral(""));
    assert!(!numeral("1a"));
}

#[test]
fn words_stand_between_blanks_and_parentheses() {
    assert_eq!(words("Int"), strings(&["Int"]));
    assert_eq!(words("Seq Int"), strings(&["Seq", "Int"]));
    assert_eq!(words("(Array β (Seq Real))"), strings(&["", "Array", "β", "", "Seq", "Real", "", ""]));
    assert_eq!(words(""), strings(&[""]));
    for text in ["", "a", " a", "a ", "(a b)", "a  b", "f (g x)"] {
        let expected: Vec<String> =
            text.split([' ', '(', ')']).map(|w| w.to_string()).collect();
        assert_eq!(words(text), expected, "{text:?}");
    }
}

#[test]
fn a_name_set_holds_each_name_once() {
    let mut names = NameSet::new();
    assert!(!names.contains("f"));
    names.insert("f");
    names.insert("f");
    names.insert("g");
    assert!(names.contains("f"));
    assert!(names.contains("g"));
    assert!(!names.contains("h"));
}

#[test]
fn built_in_sorts_have_rocq_names() {
    assert_eq!(render_sort_name("Bool"), "Prop");
    assert_eq!(render_sort_name("Int"), "Z");
    assert_eq!(render_sort_name("Real"), "R");
    assert_eq!(render_sort_name("Color"), "Color");
    assert_eq!(render_sort_name("Seq Int"), "Seq Z");
    assert_eq!(render_sort_name("(Array Int (Seq Bool))"), "(Array Z (Seq Prop))");
    assert_eq!(render_sort_name("Interval Integer"), "Interval Integer");
    assert_eq!(render_sort_name(""), "");
    for s in ["Bool", "Int", "Real", "Color", "Seq Int"] {
        assert_eq!(render_type(&no_names(), &named(s)), render_sort_name(s));
    }
}

#[test]
fn types_are_written_structurally() {
    assert_eq!(render_type(&no_names(), &fun(named("Int"), named("Bool"))), "(Z -> Prop)");
    assert_eq!(
        render_type(&no_names(), &fun(named("Int"), fun(named("Real"), named("T")))),
        "(Z -> (R -> T))"
    );
    let seq_int = Type::App(Arc::new(named("Seq")), Arc::new(named("Int")));
    assert_eq!(render_type(&no_names(), &seq_int), "Seq Z");
    let nested = Type::App(Arc::new(named("Seq")), Arc::new(seq_int));
    assert_eq!(render_type(&no_names(), &nested), "Seq (Seq Z)");
    let of_functions =
        Type::App(Arc::new(named("Seq")), Arc::new(fun(named("Int"), named("Int"))));
    assert_eq!(render_type(&no_names(), &of_functions), "Seq ((Z -> Z))");
    let primitive = Type::Fun {
        dom: Arc::new(named("Int")),
        cod: Arc::new(named("Int")),
        applied: false,
    };
    assert_eq!(
        render_type(&no_names(), &Type::App(Arc::new(named("Seq")), Arc::new(primitive))),
        "Seq (Z -> Z)"
    );
}

#[test]
fn operators_take_rocq_notation() {
    let table = [
        ("<", "(x < y)"),
        ("<=", "(x <= y)"),
        (">", "(x > y)"),
        (">=", "(x >= y)"),
        ("+", "(x + y)"),
        ("-", "(x - y)"),
        ("*", "(x * y)"),
        ("and", "(x /\\ y)"),
        ("or", "(x \\/ y)"),
        ("implies", "(x -> y)"),
        ("=>", "(x -> y)"),
        ("iff", "(x <-> y)"),
    ];
    for (head, expected) in table {
        assert_eq!(render_term(&no_names(), &binary(head, "x", "y")), expected);
        assert!(infix(head).is_some());
    }
    assert_eq!(render_term(&no_names(), &unary("not", "x")), "(~ x)");
    assert!(infix("not").is_none());
    assert_eq!(render_term(&no_names(), &binary("f", "x", "y")), "f x y");
    assert_eq!(render_term(&no_names(), &unary("-", "x")), "- x");
    assert_eq!(render_term(&no_names(), &binary("not", "x", "y")), "(~ x) y");
}

#[test]
fn an_equation_comes_before_any_other_reading() {
    let mut t = binary("and", "x", "y");
    t.equation = Some((Arc::new(var("x")), Arc::new(unary("not", "y"))));
    assert_eq!(render_term(&no_names(), &t), "(x = (~ y))");
}

#[test]
fn terms_follow_their_shape() {
    assert_eq!(render_term(&no_names(), &constant("true")), "True");
    assert_eq!(render_term(&no_names(), &constant("false")), "False");
    assert_eq!(render_term(&no_names(), &constant("c")), "c");
    assert_eq!(render_term(&no_names(), &var("true")), "true");
    assert_eq!(render_term(&no_names(), &app(var("f"), var("x"))), "f x");
    assert_eq!(render_term(&no_names(), &app(var("f"), app(var("g"), var("x")))), "f (g x)");
    let id = lam(typed("x", named("Int")), var("x"));
    assert_eq!(render_term(&no_names(), &id), "(fun x : Z => x)");
    assert_eq!(render_term(&no_names(), &app(var("f"), id)), "f ((fun x : Z => x))");
    assert_eq!(render_term(&no_names(), &app(var("f"), unary("not", "x"))), "f ((~ x))");
}

#[test]
fn implications_chain_to_the_right() {
    assert_eq!(rocq_implication_str(&[], "c"), "c");
    assert_eq!(rocq_implication_str(&strings(&["p"]), "c"), "p -> c");
    assert_eq!(rocq_implication_str(&strings(&["p", "(~ p)"]), "False"), "p -> (~ p) -> False");
}

#[test]
fn a_conclusion_is_that_of_the_first_step_with_the_number() {
    let c = cert(vec![
        step(0, StepBody::Inst { thm: StepId(0) }, var("a")),
        step(7, StepBody::Inst { thm: StepId(0) }, unary("not", "b")),
        step(7, StepBody::Inst { thm: StepId(0) }, var("c")),
    ]);
    assert_eq!(step_concl(&c, StepId(7)), Some("(~ b)".to_string()));
    assert_eq!(step_concl(&c, StepId(1)), None);
}

#[test]
fn every_rule_has_its_proof() {
    let cases: Vec<(StepBody, &str)> = vec![
        (
            StepBody::Trans { lhs: StepId(1), rhs: StepId(2) },
            "Theorem s9 : q.\nProof. exact (eq_trans s1 s2). Qed.\n",
        ),
        (
            StepBody::MkComb { fun_eq: StepId(1), arg_eq: StepId(2) },
            "Theorem s9 : q.\nProof. exact (f_equal2 (fun f x => f x) s1 s2). Qed.\n",
        ),
        (
            StepBody::EqMp { iff: StepId(1), p: StepId(2) },
            "Theorem s9 : q.\nProof. exact (proj1 s1 s2). Qed.\n",
        ),
        (
            StepBody::Deduct { a: StepId(1), b: StepId(2) },
            "Theorem s9 : q.\nProof. exact (fun _h_s1 => s2). Qed.\n",
        ),
        (
            StepBody::Abs { var: typed("x", named("Int")), eq: StepId(3) },
            "Theorem s9 : q.\nProof. exact (functional_extensionality _ _ (fun x => s3)). Qed.\n",
        ),
        (StepBody::Inst { thm: StepId(3) }, "Theorem s9 : q.\nProof. exact s3. Qed.\n"),
        (StepBody::InstType { thm: StepId(3) }, "Theorem s9 : q.\nProof. exact s3. Qed.\n"),
        (
            StepBody::Theory {
                name: "LIA".to_string(),
                witness: "w".to_string(),
                tactic: None,
                parents: vec![],
            },
            "Theorem s9 : q.\nProof. exact adsmt_s9. Qed.\n",
        ),
        (
            StepBody::Theory {
                name: "LIA".to_string(),
                witness: "w".to_string(),
                tactic: None,
                parents: vec![StepId(4), StepId(10)],
            },
            "Theorem s9 : q.\nProof. exact (adsmt_s9 s4 s10). Qed.\n",
        ),
        (
            StepBody::Instance { relation: "Functor".to_string() },
            "Theorem s9 : q.\nProof. exact adsmt_s9. Qed.\n",
        ),
        (
            StepBody::Assumed { formula: var("f"), explain: None },
            "Theorem s9 : q.\nProof. exact adsmt_assumed_s9. Qed.\n",
        ),
        (StepBody::Assume(var("h")), "Hypothesis s9 : h.\n"),
        (StepBody::Refl(var("t")), "Theorem s9 : t = t.\nProof. reflexivity. Qed.\n"),
    ];
    for (body, expected) in cases {
        let text = emitted(&step(9, body, var("q")));
        assert_eq!(text, expected);
        assert!(!text.contains("Axiom"));
        assert!(!text.contains("Admitted"));
    }
}

#[test]
fn a_beta_step_shows_its_redex_escaped() {
    let redex = app(lam(typed("x", named("Bool")), var("x")), var("p"));
    let mut s = step(4, StepBody::Beta { redex }, var("q"));
    let shown = comment_text(&no_names(), &s.body).unwrap();
    assert_eq!(shown, "(fun x : Prop => x) p");
    s.comment = shown.to_uppercase();
    assert_eq!(
        emitted(&s),
        "Theorem s4 : q.\nProof. exact eq_refl. Qed. (* β-reduce: (FUN X : PROP => X) P *)\n"
    );
}

#[test]
fn a_comment_is_shown_by_beta_steps_and_user_assumptions_only() {
    let explained =
        StepBody::Assumed { formula: var("p"), explain: Some("because".to_string()) };
    assert_eq!(comment_text(&no_names(), &explained), Some("because".to_string()));
    let bare = StepBody::Assumed { formula: var("p"), explain: None };
    assert_eq!(comment_text(&no_names(), &bare), Some(String::new()));
    assert_eq!(comment_text(&no_names(), &StepBody::Assume(var("p"))), None);
}

fn theory(id: u64, tactic: Option<&str>) -> Step {
    step(
        id,
        StepBody::Theory {
            name: "EUF".to_string(),
            witness: "w".to_string(),
            tactic: tactic.map(|t| t.to_string()),
            parents: vec![StepId(0), StepId(77), StepId(1)],
        },
        constant("false"),
    )
}

#[test]
fn oracles_are_implications_from_the_parents_that_exist() {
    let c = cert(vec![
        step(0, StepBody::Assume(var("p")), var("p")),
        step(1, StepBody::Assume(unary("not", "p")), unary("not", "p")),
        theory(2, None),
    ]);
    assert_eq!(
        oracles(&c),
        "(* theory `EUF`; witness: w *)\nAxiom adsmt_s2 : p -> (~ p) -> False.\n\n"
    );
}

#[test]
fn a_user_tactic_replaces_the_axiom() {
    let c = cert(vec![
        step(0, StepBody::Assume(var("p")), var("p")),
        theory(1, Some("tauto.")),
    ]);
    let text = oracles(&c);
    assert_eq!(
        text,
        "(* theory `EUF`; witness: w *)\n(* user tactic hint (replaces the oracle) *)\n\
         Theorem adsmt_s1 : p -> False -> False.\nProof. tauto. Qed.\n\n"
    );
    assert!(!text.contains("Axiom"));
}

#[test]
fn an_instance_is_an_implication_from_its_hypotheses() {
    let mut instance =
        step(5, StepBody::Instance { relation: "Functor".to_string() }, var("q"));
    for h in [var("p"), unary("not", "r"), var("z")] {
        instance.result.hyps.push(formula(h, vec![]));
    }
    let c = cert(vec![
        step(1, StepBody::Assume(unary("not", "r")), unary("not", "r")),
        step(3, StepBody::Inst { thm: StepId(1) }, var("p")),
        step(4, StepBody::Assume(var("p")), var("p")),
        instance,
    ]);
    assert_eq!(
        oracles(&c),
        "(* type-class instance for `Functor` *)\nAxiom adsmt_s5 : p -> (~ r) -> z -> q.\n\n"
    );
    let mut out = String::new();
    emit_step(&c, &c.steps[3], &mut out);
    assert_eq!(out, "Theorem s5 : q.\nProof. exact (adsmt_s5 s3 s1 _). Qed.\n");
}

#[test]
fn a_bound_variable_keeps_its_name() {
    let mut c = cert(vec![]);
    c.signature.funs.push(function("f", None));
    c.signature.funs.push(function("g", None));
    c.signature.rocq_names.push(("f".to_string(), "Z.abs".to_string()));
    let bound = lam(typed("f", named("Int")), app(var("f"), var("g")));
    assert_eq!(
        render_term(&c.signature, &app(var("f"), bound)),
        "Z.abs ((fun f : Z => f g))"
    );
    assert_eq!(render_term(&c.signature, &constant("f")), "Z.abs");
    assert_eq!(render_term(&c.signature, &unary("f", "x")), "Z.abs x");
    assert_eq!(render_term(&c.signature, &unary("not", "f")), "(~ Z.abs)");
}

#[test]
fn a_mapped_name_that_is_no_function_stays() {
    let mut sig = no_names();
    sig.rocq_names.push(("f".to_string(), "Z.abs".to_string()));
    assert_eq!(render_term(&sig, &var("f")), "f");
}

#[test]
fn a_mapped_sort_is_mapped_in_types_too() {
    let mut c = cert(vec![step_about(
        vec![],
        formula(
            var("x"),
            vec![typed("x", named("Elem")), typed("f", fun(named("Elem"), named("Int")))],
        ),
    )]);
    c.signature.rocq_names.push(("Elem".to_string(), "nat".to_string()));
    let body = render_body(&c);
    assert!(body.contains("Parameter x : nat.\nParameter f : (nat -> Z).\n"), "{body}");
    assert_eq!(fun_type_in(&c.signature, &strings(&["Seq Elem"]), "Int"), "Seq nat -> Z");
}

#[test]
fn instances_and_assumptions_are_axioms() {
    let mut given = step(
        6,
        StepBody::Assumed { formula: var("g"), explain: Some("raw".to_string()) },
        var("q"),
    );
    given.comment = "escaped".to_string();
    let c = cert(vec![
        step(5, StepBody::Instance { relation: "Functor".to_string() }, var("q")),
        given,
    ]);
    assert_eq!(
        oracles(&c),
        "(* type-class instance for `Functor` *)\nAxiom adsmt_s5 : q.\n\
         (* USER-SUPPLIED ASSUMPTION (not proved): escaped *)\nAxiom adsmt_assumed_s6 : g.\n\n"
    );
}

#[test]
fn steps_without_oracles_state_none() {
    assert_eq!(oracles(&cert(vec![step(0, StepBody::Assume(var("p")), var("p"))])), "");
    assert_eq!(oracles(&cert(vec![])), "");
}

#[test]
fn oracle_names_tell_users_from_solvers() {
    let solver = theory(1, None);
    let user = step(1, StepBody::Assumed { formula: var("p"), explain: None }, var("p"));
    assert_eq!(oracle_name(&solver), "adsmt_s1");
    assert_eq!(oracle_name(&user), "adsmt_assumed_s1");
}

#[test]
fn sorts_are_declared_with_their_arity() {
    let mut c = cert(vec![]);
    for (name, arity, builtin) in
        [("Int", 0, true), ("Color", 0, false), ("Pair", 2, false), ("Nat", 0, false)]
    {
        c.signature.sorts.push(SortDecl { name: name.to_string(), arity, builtin });
    }
    c.signature.rocq_names.push(("Nat".to_string(), "nat".to_string()));
    let (text, declared) = declarations(&c);
    assert_eq!(
        text,
        "(* Uninterpreted sorts (non-empty, per SMT-LIB) *)\n\
         Parameter Color : Type.\n\
         Axiom Color_nonempty : inhabited Color.\n\
         Parameter Pair : Type -> Type -> Type.\n\n"
    );
    assert!(declared.contains("Color"));
    assert!(declared.contains("Pair"));
    assert!(!declared.contains("Int"));
    assert!(!declared.contains("Nat"));
}

#[test]
fn nothing_declared_emits_nothing() {
    let (text, declared) = declarations(&cert(vec![]));
    assert_eq!(text, "");
    assert!(!declared.contains("p"));
    let mut c = cert(vec![]);
    c.signature.sorts.push(SortDecl { name: "Int".to_string(), arity: 0, builtin: true });
    assert_eq!(declarations(&c).0, "");
}

fn tree() -> DatatypeDecl {
    DatatypeDecl {
        sort_name: "Tree".to_string(),
        constructors: strings(&["leaf", "node", "odd"]),
        arities: vec![0, 2],
        selectors: vec![vec![], strings(&["val", "kid"]), strings(&["ghost"])],
        field_sorts: vec![vec![], strings(&["Int", "Tree"])],
        params: strings(&["A", "B"]),
    }
}

#[test]
fn datatypes_become_inductive_types_with_selectors() {
    let mut c = cert(vec![]);
    c.signature.datatypes.push(tree());
    let (text, declared) = declarations(&c);
    assert_eq!(
        text,
        "Inductive Tree (A : Type) (B : Type) : Type :=\n  \
         | leaf : Tree\n  \
         | node : Z -> Tree -> Tree\n  \
         | odd : Tree\n\
         .\n\
         Parameter val : Tree -> Z.\n\
         Axiom val_node : forall (x0 : Z) (x1 : Tree), val (node x0 x1) = x0.\n\
         Parameter kid : Tree -> Tree.\n\
         Axiom kid_node : forall (x0 : Z) (x1 : Tree), kid (node x0 x1) = x1.\n\n"
    );
    for name in ["Tree", "leaf", "node", "odd", "val", "kid"] {
        assert!(declared.contains(name));
    }
    assert!(!declared.contains("ghost"));
}

#[test]
fn an_arity_without_sorts_is_marked_incomplete() {
    let mut c = cert(vec![]);
    let mut d = tree();
    d.arities = vec![0, 3];
    d.selectors = vec![vec![], strings(&["val"])];
    d.params = vec![];
    c.signature.datatypes.push(d);
    let (text, declared) = declarations(&c);
    assert_eq!(
        text,
        "Inductive Tree : Type :=\n  \
         | leaf : Tree\n  \
         (* INCOMPLETE: `node` takes 3 argument(s) whose sorts the certificate did not carry *)\n  \
         | node : Tree\n  \
         | odd : Tree\n\
         .\n\n"
    );
    assert!(!declared.contains("val"));
}

fn function(name: &str, body: Option<FunBody>) -> FunDecl {
    FunDecl {
        name: name.to_string(),
        params: strings(&["Int", "Elem"]),
        param_names: strings(&["x", "y", "z"]),
        result: "Real".to_string(),
        body,
    }
}

#[test]
fn functions_are_declared_or_defined() {
    let mut c = cert(vec![]);
    c.signature.rocq_names.push(("Elem".to_string(), "nat".to_string()));
    c.signature.rocq_names.push(("Elem".to_string(), "never".to_string()));
    c.signature.rocq_names.push(("plus".to_string(), "Nat.add".to_string()));
    c.signature.funs.push(function("f", None));
    c.signature.funs.push(function("plus", None));
    c.signature.funs.push(function("bad", Some(FunBody::Unparseable)));
    c.signature.funs.push(function(
        "g",
        Some(FunBody::Rendered { text: "(x + 1)".to_string(), unmapped: strings(&["ite", "mod"]) }),
    ));
    let (text, declared) = declarations(&c);
    assert_eq!(
        text,
        "Parameter f : Z -> nat -> R.\n\
         (* UNPARSEABLE define-fun body for `bad`; emitted as uninterpreted *)\n\
         Parameter bad : Z -> nat -> R.\n\
         (* UNMAPPED OPERATOR in `g`: `ite` *)\n\
         (* UNMAPPED OPERATOR in `g`: `mod` *)\n\
         Definition g (x : Z) (y : nat) : R := (x + 1).\n\n"
    );
    for name in ["f", "plus", "bad", "g"] {
        assert!(declared.contains(name));
    }
    assert_eq!(c.signature.mapped_name("Elem"), "nat");
    assert_eq!(c.signature.mapped_name("Other"), "Other");
}

#[test]
fn function_types_are_arrows() {
    let sig = cert(vec![]).signature;
    assert_eq!(fun_type_in(&sig, &strings(&["Int", "Int"]), "Bool"), "Z -> Z -> Prop");
    assert_eq!(fun_type_in(&sig, &[], "Color"), "Color");
}

fn step_about(hyps: Vec<Formula>, concl: Formula) -> Step {
    Step {
        id: StepId(0),
        body: StepBody::Inst { thm: StepId(0) },
        result: Sequent { hyps, concl },
        comment: String::new(),
    }
}

#[test]
fn free_variables_come_once_in_order() {
    let c = cert(vec![
        step_about(
            vec![
                formula(var("a"), vec![typed("b", named("Int")), typed("a", named("Bool"))]),
                formula(var("a"), vec![typed("a", named("Bool"))]),
            ],
            formula(var("a"), vec![typed("a", named("Int"))]),
        ),
        step_about(vec![], formula(var("a"), vec![typed("b", named("Int"))])),
    ]);
    let expected = [("b", "Z"), ("a", "Prop"), ("a", "Z")];
    let found = collect_free_vars(&c);
    assert_eq!(found.len(), expected.len());
    for (entry, (name, ty)) in found.iter().zip(expected) {
        assert_eq!(entry.0, name);
        assert_eq!(entry.1, ty);
    }
}

#[test]
fn a_declared_variable_is_no_parameter() {
    let mut c = cert(vec![step_about(
        vec![],
        formula(var("a"), vec![typed("f", named("Int")), typed("a", named("Real"))]),
    )]);
    c.signature.funs.push(FunDecl {
        name: "f".to_string(),
        params: vec![],
        param_names: vec![],
        result: "Int".to_string(),
        body: None,
    });
    let body = render_body(&c);
    assert!(body.contains("Module AdsmtCert.\n\nParameter f : Z.\n\nParameter a : R.\n\nSection"));
    assert_eq!(body.matches("Parameter f").count(), 1);
}

#[test]
fn only_uses_of_numeric_sorts_import_them() {
    let mut c = cert(vec![]);
    c.signature.sorts.push(SortDecl { name: "Int".to_string(), arity: 0, builtin: true });
    c.signature.sorts.push(SortDecl { name: "Real".to_string(), arity: 0, builtin: true });
    assert_eq!(numeric_imports(&c), (false, false));
    c.signature.sorts.push(SortDecl { name: "Real".to_string(), arity: 0, builtin: false });
    assert_eq!(numeric_imports(&c), (false, true));
    c.signature.sorts.clear();
    c.signature.funs.push(function("f", None));
    assert_eq!(numeric_imports(&c), (true, true));
    c.signature.funs.clear();
    c.signature.datatypes.push(tree());
    assert_eq!(numeric_imports(&c), (true, false));
    c.signature.datatypes.clear();
    c.steps.push(step_about(
        vec![],
        formula(var("a"), vec![typed("g", fun(named("Int"), named("Bool")))]),
    ));
    assert_eq!(numeric_imports(&c), (true, false));
    c.steps.push(step_about(vec![], formula(var("a"), vec![typed("h", named("Ring"))])));
    assert_eq!(numeric_imports(&c), (true, false));
    let seq_real = Type::App(Arc::new(named("Seq")), Arc::new(named("Real")));
    c.steps.push(step_about(
        vec![formula(var("a"), vec![typed("s", seq_real)])],
        formula(var("a"), vec![]),
    ));
    assert_eq!(numeric_imports(&c), (true, true));
}

#[test]
fn letters_of_other_names_need_no_numeric_theory() {
    let zone = formula(var("x"), vec![typed("x", named("Zone"))]);
    let ring = formula(var("y"), vec![typed("y", named("Ring"))]);
    assert_eq!(numeric_imports(&cert(vec![step_about(vec![zone], ring)])), (false, false));
}

#[test]
fn a_numeric_type_that_is_written_is_needed() {
    let about = |ty: Type| {
        cert(vec![step_about(vec![], formula(var("x"), vec![typed("x", ty)]))])
    };
    assert_eq!(numeric_imports(&about(named("Z"))), (true, false));
    assert_eq!(numeric_imports(&about(named("R"))), (false, true));
    assert_eq!(numeric_imports(&about(fun(named("R"), named("Z")))), (true, true));
    let mut mapped = about(named("Nat"));
    mapped.signature.rocq_names.push(("Nat".to_string(), "Z".to_string()));
    assert_eq!(numeric_imports(&mapped), (true, false));
    let mut declared = about(fun(named("Z"), named("R")));
    declared.signature.sorts.push(SortDecl { name: "Z".to_string(), arity: 0, builtin: false });
    assert_eq!(numeric_imports(&declared), (false, true));
}

#[test]
fn declared_names_are_those_that_the_declarations_account_for() {
    let mut c = cert(vec![]);
    c.signature.datatypes.push(tree());
    c.signature.funs.push(function("f", None));
    for (name, builtin) in [("Int", true), ("Color", false), ("Tree", false)] {
        c.signature.sorts.push(SortDecl { name: name.to_string(), arity: 0, builtin });
    }
    let (_, declared) = declarations(&c);
    for name in ["Tree", "leaf", "node", "odd", "val", "kid", "ghost", "f", "Int", "Color", "g"] {
        assert_eq!(is_declared(&c.signature, name), declared.contains(name), "{name}");
    }
    assert!(is_declared(&c.signature, "kid"));
    assert!(!is_declared(&c.signature, "ghost"));
    assert!(!is_declared(&c.signature, "Int"));
}

#[test]
fn a_sort_inside_an_applied_name_is_a_use() {
    let mut c = cert(vec![]);
    let mut f = function("f", None);
    f.params = strings(&["Seq Int"]);
    f.result = "Array Bool Real".to_string();
    c.signature.funs.push(f);
    assert_eq!(numeric_imports(&c), (true, true));
    assert_eq!(
        declarations(&c).0,
        "Parameter f : Seq Z -> Array Prop R.\n\n"
    );
}

#[test]
fn unmapped_constants_are_listed_once_in_order() {
    let c = cert(vec![
        step_about(
            vec![formula(app(constant("mod"), binary("and", "x", "y")), vec![])],
            formula(lam(typed("x", named("Int")), app(constant("ite"), constant("mod"))), vec![]),
        ),
        step_about(
            vec![],
            formula(app(app(constant("-12"), constant("true")), constant("div")), vec![]),
        ),
    ]);
    assert_eq!(unmapped_constants(&c), strings(&["mod", "ite", "div"]));
    let body = render_body(&c);
    assert!(body.starts_with(
        "(* UNMAPPED SYMBOL: `mod` is emitted verbatim and may not parse in Rocq. *)\n\
         (* UNMAPPED SYMBOL: `ite` is emitted verbatim and may not parse in Rocq. *)\n\
         (* UNMAPPED SYMBOL: `div` is emitted verbatim and may not parse in Rocq. *)\n\n\
         Module AdsmtCert.\n\n"
    ));
}

#[test]
fn appended_steps_only_extend_the_unmapped_constants() {
    let about = |name: &str| step_about(vec![], formula(constant(name), vec![]));
    let mut c = cert(vec![about("mod"), about("div")]);
    assert_eq!(unmapped_constants(&c), strings(&["mod", "div"]));
    c.steps.push(about("mod"));
    assert_eq!(unmapped_constants(&c), strings(&["mod", "div"]));
    c.steps.push(about("ite"));
    assert_eq!(unmapped_constants(&c), strings(&["mod", "div", "ite"]));
}

#[test]
fn a_constant_under_notation_is_written_and_listed() {
    let t = Term {
        equation: None,
        spine: Some(Spine { head: "not".to_string(), args: vec![Arc::new(constant("c"))] }),
        node: TermNode::App(Arc::new(constant("not")), Arc::new(constant("c"))),
    };
    assert_eq!(render_term(&no_names(), &t), "(~ c)");
    let c = cert(vec![step_about(vec![], formula(t, vec![]))]);
    assert_eq!(unmapped_constants(&c), strings(&["c"]));
}

#[test]
fn a_mapped_function_is_no_unmapped_constant() {
    let mut c = cert(vec![step_about(vec![], formula(app(constant("f"), constant("g")), vec![]))]);
    c.signature.funs.push(function("f", None));
    c.signature.funs.push(function("g", None));
    c.signature.rocq_names.push(("f".to_string(), "Z.abs".to_string()));
    assert_eq!(unmapped_constants(&c), strings(&["g"]));
}

#[test]
fn known_constants_are_not_listed() {
    let known = [
        "true", "false", "not", "and", "or", "implies", "=>", "iff", "=", "<", "<=", ">", ">=",
        "+", "-", "*", "7",
    ];
    for name in known {
        let c = cert(vec![step_about(vec![], formula(constant(name), vec![]))]);
        assert!(unmapped_constants(&c).is_empty(), "{name}");
    }
}

#[test]
fn steps_with_different_numbers_have_different_names() {
    let names: Vec<String> = [1, 11, 111, 10, 0]
        .iter()
        .map(|id| oracle_name(&theory(*id, None)))
        .collect();
    assert_eq!(names, strings(&["adsmt_s1", "adsmt_s11", "adsmt_s111", "adsmt_s10", "adsmt_s0"]));
}

#[test]
fn a_mapped_function_is_neither_declared_nor_a_parameter() {
    let mut c = cert(vec![step_about(
        vec![],
        formula(var("a"), vec![typed("plus", named("Int")), typed("a", named("Bool"))]),
    )]);
    c.signature.funs.push(function("plus", None));
    c.signature.rocq_names.push(("plus".to_string(), "Nat.add".to_string()));
    let body = render_body(&c);
    assert!(!body.contains("Parameter plus"), "{body}");
    assert!(body.contains("Parameter a : Prop.\n"), "{body}");
}

#[test]
fn steps_stand_inside_the_section_and_oracles_before_it() {
    let mut c = cert(vec![step(0, StepBody::Assume(var("p")), var("p")), theory(1, None)]);
    c.conclusion = StepId(1);
    c.final_sequent =
        Some(Sequent { hyps: vec![], concl: formula(constant("false"), vec![]) });
    let body = render_body(&c);
    let oracle = body.find("Axiom adsmt_s1 : p -> False -> False.\n").unwrap();
    let section = body.find("Section Proof.\n\n").unwrap();
    let hypothesis = body.find("Hypothesis s0 : p.\n").unwrap();
    let decided = body.find("Theorem s1 : False.\n").unwrap();
    let result = body.find("\nTheorem result : False.\nProof. exact s1. Qed.\n").unwrap();
    let end = body.find("\nEnd Proof.\n").unwrap();
    assert!(oracle < section && section < hypothesis && hypothesis < decided);
    assert!(decided < result && result < end);
}

#[test]
fn outcomes_have_exit_codes_and_diagnostics() {
    assert_eq!(exit_code(Outcome::Emitted), 0);
    assert_eq!(exit_code(Outcome::ReadFailed), 1);
    assert_eq!(exit_code(Outcome::Malformed), 3);
    assert_eq!(exit_code(Outcome::WriteFailed), 1);
    assert_eq!(
        diagnostic("rocq-emitter", Outcome::ReadFailed, "closed"),
        Some("rocq-emitter: reading stdin: closed".to_string())
    );
    assert_eq!(
        diagnostic("rocq-emitter", Outcome::Malformed, "eof"),
        Some("rocq-emitter: malformed certificate: eof".to_string())
    );
    assert_eq!(diagnostic("rocq-emitter", Outcome::Emitted, ""), None);
    assert_eq!(diagnostic("rocq-emitter", Outcome::WriteFailed, "pipe"), None);
}
