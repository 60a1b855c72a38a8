//! The certificate: proof steps over sequents, and the declaration context they live in.
use vstd::prelude::*;

use crate::term::{Term, Var};

verus! {

/// The number of a proof step.
#[derive(Clone, Copy, Debug, PartialEq, Eq, Structural)]
pub struct StepId(pub u64);

/// A formula of a sequent, with its free variables in the order in which the kernel lists them.
#[derive(Debug)]
pub struct Formula {
    pub term: Term,
    pub free_vars: Vec<Var>,
}

/// What a step proves: the conclusion under the hypotheses.
#[derive(Debug)]
pub struct Sequent {
    pub hyps: Vec<Formula>,
    pub concl: Formula,
}

/// The rule that a step applies.
#[derive(Debug)]
pub enum StepBody {
    Assume(Term),
    Refl(Term),
    Trans { lhs: StepId, rhs: StepId },
    MkComb { fun_eq: StepId, arg_eq: StepId },
    EqMp { iff: StepId, p: StepId },
    Deduct { a: StepId, b: StepId },
    Beta { redex: Term },
    Abs { var: Var, eq: StepId },
    Inst { thm: StepId },
    InstType { thm: StepId },
    /// A decision of a theory solver, with a summary of its witness and the Rocq tactic, if any,
    /// that the user supplied to prove it.
    Theory { name: String, witness: String, tactic: Option<String>, parents: Vec<StepId> },
    /// A type-class instance.
    Instance { relation: String },
    /// An assumption that the user asked for.
    Assumed { formula: Term, explain: Option<String> },
}

/// A proof step. `comment` is the text that the step shows in a comment
/// ([`crate::steps::comment_text`]), escaped so that it cannot end the comment.
#[derive(Debug)]
pub struct Step {
    pub id: StepId,
    pub body: StepBody,
    pub result: Sequent,
    pub comment: String,
}

/// A declared sort. The built-in ones are registered with every certificate.
#[derive(Debug)]
pub struct SortDecl {
    pub name: String,
    pub arity: usize,
    pub builtin: bool,
}

/// A declared datatype. Per constructor, in the same order: its arity, its selectors and the sorts
/// of its fields; any of the three lists may be short.
#[derive(Debug)]
pub struct DatatypeDecl {
    pub sort_name: String,
    pub constructors: Vec<String>,
    pub arities: Vec<usize>,
    pub selectors: Vec<Vec<String>>,
    pub field_sorts: Vec<Vec<String>>,
    pub params: Vec<String>,
}

/// The body of a defined function.
#[derive(Debug)]
pub enum FunBody {
    /// The body is no well-formed expression.
    Unparseable,
    /// The body in Rocq syntax, and the operators in it that have no Rocq counterpart.
    Rendered { text: String, unmapped: Vec<String> },
}

/// A declared function or constant, defined where it has a body.
#[derive(Debug)]
pub struct FunDecl {
    pub name: String,
    pub params: Vec<String>,
    pub param_names: Vec<String>,
    pub result: String,
    pub body: Option<FunBody>,
}

/// The declaration context. `rocq_names` gives the names that the user maps to names which Rocq
/// already has; `required_imports` the modules that these need.
#[derive(Debug)]
pub struct Signature {
    pub sorts: Vec<SortDecl>,
    pub datatypes: Vec<DatatypeDecl>,
    pub funs: Vec<FunDecl>,
    pub rocq_names: Vec<(String, String)>,
    pub required_imports: Vec<String>,
}

/// A certificate: its steps, the step that proves the goal with the sequent it proves, the
/// declaration context, and the kernel's account of what the proof trusts.
#[derive(Debug)]
pub struct Certificate {
    pub steps: Vec<Step>,
    pub conclusion: StepId,
    pub final_sequent: Option<Sequent>,
    pub signature: Signature,
    pub trust_summary: String,
}

impl Signature {
    /// The name that `name` has in Rocq: the first that the user mapped it to, or else itself.
    pub open spec fn rocq_name(self, name: Seq<char>) -> Seq<char> {
        mapped(self.rocq_names@, name)
    }

    /// Looks up the name that `name` has in Rocq.
    pub fn mapped_name<'a>(&'a self, name: &'a str) -> (r: &'a str)
        ensures
            r@ == self.rocq_name(name@),
    {
        look_up(&self.rocq_names, name)
    }

    /// A declared function or constant has this name.
    pub open spec fn is_function(self, name: Seq<char>) -> bool {
        exists|i: int| 0 <= i < self.funs@.len() && #[trigger] self.funs@[i].name@ == name
    }

    /// How a statement writes a free occurrence of `name`: a declared function by the name that it
    /// has in Rocq, anything else as it is.
    pub open spec fn written_name(self, name: Seq<char>) -> Seq<char> {
        if self.is_function(name) {
            self.rocq_name(name)
        } else {
            name
        }
    }

    /// Looks up how a statement writes a free occurrence of `name`.
    pub fn name_in_statements<'a>(&'a self, name: &'a str) -> (r: &'a str)
        ensures
            r@ == self.written_name(name@),
    {
        for i in 0..self.funs.len()
            invariant
                forall|j: int| 0 <= j < i ==> #[trigger] self.funs@[j].name@ != name@,
        {
            if crate::text::same(self.funs[i].name.as_str(), name) {
                assert(self.funs@[i as int].name@ == name@);
                return self.mapped_name(name);
            }
        }
        name
    }

    /// Nothing is declared.
    pub open spec fn declares_nothing(self) -> bool {
        self.sorts@.len() == 0 && self.datatypes@.len() == 0 && self.funs@.len() == 0
    }

    /// Whether nothing is declared.
    pub fn is_empty(&self) -> (r: bool)
        ensures
            r == self.declares_nothing(),
    {
        self.sorts.len() == 0 && self.datatypes.len() == 0 && self.funs.len() == 0
    }
}

/// The first entry for `name` in a table of names, or `name` itself where there is none.
pub open spec fn mapped(table: Seq<(String, String)>, name: Seq<char>) -> Seq<char>
    decreases table.len(),
{
    if table.len() == 0 {
        name
    } else if table[0].0@ == name {
        table[0].1@
    } else {
        mapped(table.skip(1), name)
    }
}

/// Looks up `name` in a table of names.
pub fn look_up<'a>(table: &'a Vec<(String, String)>, name: &'a str) -> (r: &'a str)
    ensures
        r@ == mapped(table@, name@),
{
    assert(table@.skip(0) =~= table@);
    for i in 0..table.len()
        invariant
            mapped(table@, name@) == mapped(table@.skip(i as int), name@),
    {
        let ghost rest = table@.skip(i as int);
        assert(rest.skip(1) =~= table@.skip(i + 1));
        if crate::text::same(table[i].0.as_str(), name) {
            return table[i].1.as_str();
        }
    }
    name
}

} // verus!
