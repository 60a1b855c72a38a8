//! How names, sorts, types and terms are written, over their fields, and how they read back.
use vstd::prelude::*;

use crate::certificate::{mapped, Signature};
use crate::term::{
    rocq_infix, rocq_sort_name, rocq_term, rocq_term_in, rocq_type, sort_in, type_mentions,
    words_in, Term, TermNode, Type,
};
use crate::text::has_word;
use crate::text_laws::{is_one_word, lemma_first_word, lemma_one_word};

verus! {

/// The first entry of the user's table for a name counts.
pub proof fn the_first_mapping_counts(sig: Signature, name: Seq<char>, i: int)
    requires
        0 <= i < sig.rocq_names@.len(),
        sig.rocq_names@[i].0@ == name,
        forall|j: int| 0 <= j < i ==> (#[trigger] sig.rocq_names@[j]).0@ != name,
    ensures
        sig.rocq_name(name) == sig.rocq_names@[i].1@,
{
    lemma_first_mapping(sig.rocq_names@, name, i);
}

proof fn lemma_first_mapping(table: Seq<(String, String)>, name: Seq<char>, i: int)
    requires
        0 <= i < table.len(),
        table[i].0@ == name,
        forall|j: int| 0 <= j < i ==> (#[trigger] table[j]).0@ != name,
    ensures
        mapped(table, name) == table[i].1@,
    decreases i,
{
    if i > 0 {
        let rest = table.skip(1);
        assert(table[0].0@ != name);
        assert forall|j: int| 0 <= j < i - 1 implies (#[trigger] rest[j]).0@ != name by {
            assert(rest[j] == table[j + 1]);
        }
        lemma_first_mapping(rest, name, i - 1);
    }
}

/// A name that the user's table does not have stays as it is.
pub proof fn a_name_without_a_mapping_stays(sig: Signature, name: Seq<char>)
    requires
        forall|j: int| 0 <= j < sig.rocq_names@.len() ==> (#[trigger] sig.rocq_names@[j]).0@ != name,
    ensures
        sig.rocq_name(name) == name,
{
    lemma_no_mapping(sig.rocq_names@, name);
}

proof fn lemma_no_mapping(table: Seq<(String, String)>, name: Seq<char>)
    requires
        forall|j: int| 0 <= j < table.len() ==> (#[trigger] table[j]).0@ != name,
    ensures
        mapped(table, name) == name,
    decreases table.len(),
{
    if table.len() > 0 {
        let rest = table.skip(1);
        assert(table[0].0@ != name);
        assert forall|j: int| 0 <= j < rest.len() implies (#[trigger] rest[j]).0@ != name by {
            assert(rest[j] == table[j + 1]);
        }
        lemma_no_mapping(rest, name);
    }
}

/// Statements write a name as the user mapped it if a function of that name is declared, and only
/// then.
pub proof fn statements_write_declared_functions_as_mapped(sig: Signature, name: Seq<char>, i: int)
    ensures
        0 <= i < sig.funs@.len() && sig.funs@[i].name@ == name ==> sig.written_name(name)
            == sig.rocq_name(name),
        (forall|j: int| 0 <= j < sig.funs@.len() ==> (#[trigger] sig.funs@[j]).name@ != name)
            ==> sig.written_name(name) == name,
{
}

/// A sort name of one word: the three built-in sorts have the names of Rocq's types, and every other
/// name stays. What the user mapped the word to comes first.
pub proof fn a_sort_of_one_word(sig: Signature, word: Seq<char>)
    requires
        is_one_word(word),
    ensures
        word == "Bool"@ ==> rocq_sort_name(word) == "Prop"@,
        word == "Int"@ ==> rocq_sort_name(word) == "Z"@,
        word == "Real"@ ==> rocq_sort_name(word) == "R"@,
        word != "Bool"@ && word != "Int"@ && word != "Real"@ ==> rocq_sort_name(word) == word,
        sig.rocq_name(word) != word ==> sort_in(sig, word) == sig.rocq_name(word),
        sig.rocq_name(word) == word ==> sort_in(sig, word) == rocq_sort_name(word),
        words_in(sig.rocq_names@, word) == sort_in(sig, word),
{
    reveal_strlit("Bool");
    reveal_strlit("Int");
    reveal_strlit("Real");
    assert("Bool"@.len() == 4 && "Int"@.len() == 3 && "Real"@.len() == 4);
    assert("Bool"@[0] == 'B' && "Real"@[0] == 'R');
    lemma_one_word(word);
    lemma_no_mapping(Seq::empty(), word);
}

/// A sort name of several words: its first word, what ends it, and the rest are written one after
/// the other. A name that the user mapped as a whole is written as that.
pub proof fn a_sort_of_several_words(sig: Signature, word: Seq<char>, d: char, rest: Seq<char>)
    requires
        is_one_word(word),
        d == ' ' || d == '(' || d == ')',
    ensures
        ({
            let name = word + seq![d] + rest;
            &&& rocq_sort_name(name) == rocq_sort_name(word) + seq![d] + rocq_sort_name(rest)
            &&& words_in(sig.rocq_names@, name) == sort_in(sig, word) + seq![d] + words_in(
                sig.rocq_names@,
                rest,
            )
            &&& sig.rocq_name(name) != name ==> sort_in(sig, name) == sig.rocq_name(name)
            &&& sig.rocq_name(name) == name ==> sort_in(sig, name) == words_in(
                sig.rocq_names@,
                name,
            )
        }),
{
    lemma_first_word(word, d, rest);
    lemma_one_word(word);
    a_sort_of_one_word(sig, word);
}

/// A function type is its domain, an arrow and its codomain, in parentheses.
pub proof fn a_function_type_is_an_arrow_in_parentheses(sig: Signature, ty: Type)
    requires
        ty is Fun,
    ensures
        rocq_type(sig, ty) == "("@ + rocq_type(sig, *ty->dom) + " -> "@ + rocq_type(sig, *ty->cod)
            + ")"@,
{
}

/// An applied type constructor stands before its argument; the argument is in parentheses exactly
/// where it is an application itself.
pub proof fn an_applied_type_stands_before_its_argument(sig: Signature, ty: Type)
    requires
        ty is App,
    ensures
        *ty->App_1 is App ==> rocq_type(sig, ty) == rocq_type(sig, *ty->App_0) + " ("@ + rocq_type(
            sig,
            *ty->App_1,
        ) + ")"@,
        *ty->App_1 is Fun && (*ty->App_1)->applied ==> rocq_type(sig, ty) == rocq_type(
            sig,
            *ty->App_0,
        ) + " ("@ + rocq_type(sig, *ty->App_1) + ")"@,
        *ty->App_1 is Fun && !(*ty->App_1)->applied ==> rocq_type(sig, ty) == rocq_type(
            sig,
            *ty->App_0,
        ) + " "@ + rocq_type(sig, *ty->App_1),
        *ty->App_1 is Named ==> rocq_type(sig, ty) == rocq_type(sig, *ty->App_0) + " "@ + rocq_type(
            sig,
            *ty->App_1,
        ),
{
}

/// Any other type is written as its name is.
pub proof fn a_named_type_is_written_as_its_name(sig: Signature, ty: Type)
    requires
        ty is Named,
    ensures
        rocq_type(sig, ty) == sort_in(sig, ty->Named_0@),
{
}

/// A type is built from a sort exactly if the name of one of its parts has it as a word.
pub proof fn a_type_mentions_what_its_parts_do(ty: Type, n: Seq<char>)
    ensures
        ty is Named ==> type_mentions(ty, n) == has_word(ty->Named_0@, n),
        ty is App ==> type_mentions(ty, n) == (type_mentions(*ty->App_0, n) || type_mentions(
            *ty->App_1,
            n,
        )),
        ty is Fun ==> type_mentions(ty, n) == (type_mentions(*ty->dom, n) || type_mentions(
            *ty->cod,
            n,
        )),
{
}

/// A statement's term stands inside no binder.
pub proof fn a_statement_has_no_binder_around_it(sig: Signature, t: Term)
    ensures
        rocq_term(sig, t) == rocq_term_in(sig, Seq::empty(), t),
{
}

/// An equation is its two sides with the sign between them, in parentheses, whatever else the term
/// is.
pub proof fn an_equation_is_written_between_its_sides(
    sig: Signature,
    bound: Seq<Seq<char>>,
    t: Term,
)
    requires
        t.equation is Some,
    ensures
        rocq_term_in(sig, bound, t) == "("@ + rocq_term_in(sig, bound, *(t.equation->0).0) + " = "@
            + rocq_term_in(sig, bound, *(t.equation->0).1) + ")"@,
{
}

/// Rocq's sign for a binary operator of the certificate, with the blanks around it.
pub open spec fn sign_of(head: Seq<char>, sign: Seq<char>) -> bool {
    ||| head == "<"@ && sign == " < "@
    ||| head == "<="@ && sign == " <= "@
    ||| head == ">"@ && sign == " > "@
    ||| head == ">="@ && sign == " >= "@
    ||| head == "+"@ && sign == " + "@
    ||| head == "-"@ && sign == " - "@
    ||| head == "*"@ && sign == " * "@
    ||| head == "and"@ && sign == " /\\ "@
    ||| head == "or"@ && sign == " \\/ "@
    ||| head == "implies"@ && sign == " -> "@
    ||| head == "=>"@ && sign == " -> "@
    ||| head == "iff"@ && sign == " <-> "@
}

/// The term is a binary operator of the certificate applied to two operands.
pub open spec fn is_binary(t: Term) -> bool {
    &&& t.equation is None
    &&& t.spine is Some
    &&& t.spine->0.args@.len() == 2
    &&& exists|sign: Seq<char>| #[trigger] sign_of(t.spine->0.head@, sign)
}

/// The term is a negation.
pub open spec fn is_negation(t: Term) -> bool {
    &&& t.equation is None
    &&& t.spine is Some
    &&& t.spine->0.args@.len() == 1
    &&& t.spine->0.head@ == "not"@
}

proof fn lemma_heads_differ()
    ensures
        "<"@ != "<="@,
        "<"@ != ">"@,
        "<"@ != ">="@,
        "<"@ != "+"@,
        "<"@ != "-"@,
        "<"@ != "*"@,
        "<="@ != ">="@,
        "<="@ != "or"@,
        "<="@ != "=>"@,
        ">"@ != "+"@,
        ">"@ != "-"@,
        ">"@ != "*"@,
        ">="@ != "or"@,
        ">="@ != "=>"@,
        "+"@ != "-"@,
        "+"@ != "*"@,
        "-"@ != "*"@,
        "and"@ != "iff"@,
        "or"@ != "=>"@,
        "<"@.len() == 1,
        ">"@.len() == 1,
        "+"@.len() == 1,
        "-"@.len() == 1,
        "*"@.len() == 1,
        "<="@.len() == 2,
        ">="@.len() == 2,
        "or"@.len() == 2,
        "=>"@.len() == 2,
        "and"@.len() == 3,
        "iff"@.len() == 3,
        "implies"@.len() == 7,
{
    reveal_strlit("<");
    reveal_strlit("<=");
    reveal_strlit(">");
    reveal_strlit(">=");
    reveal_strlit("+");
    reveal_strlit("-");
    reveal_strlit("*");
    reveal_strlit("and");
    reveal_strlit("or");
    reveal_strlit("implies");
    reveal_strlit("=>");
    reveal_strlit("iff");
    assert("<"@.len() == 1 && ">"@.len() == 1 && "+"@.len() == 1 && "-"@.len() == 1);
    assert("*"@.len() == 1 && "<="@.len() == 2 && ">="@.len() == 2 && "or"@.len() == 2);
    assert("<"@[0] == '<' && ">"@[0] == '>' && "+"@[0] == '+' && "-"@[0] == '-' && "*"@[0] == '*');
    assert("<="@[0] == '<' && ">="@[0] == '>' && "or"@[0] == 'o' && "=>"@[0] == '=');
    assert("and"@[0] == 'a' && "iff"@[0] == 'i');
}

/// A head has notation exactly if it is one of the binary operators, and the notation is its sign.
pub proof fn the_operators_and_their_signs_are_exact(head: Seq<char>, sign: Seq<char>)
    ensures
        rocq_infix(head) == Some(sign) <==> sign_of(head, sign),
{
    lemma_heads_differ();
}

/// A binary operator stands between its operands, the first to its left and the second to its
/// right, in parentheses, whatever the operands are.
pub proof fn an_operator_stands_between_its_operands_in_order(
    sig: Signature,
    bound: Seq<Seq<char>>,
    t: Term,
    sign: Seq<char>,
)
    requires
        t.equation is None,
        t.spine is Some,
        t.spine->0.args@.len() == 2,
        sign_of(t.spine->0.head@, sign),
    ensures
        rocq_term_in(sig, bound, t) == "("@ + rocq_term_in(sig, bound, *t.spine->0.args@[0]) + sign
            + rocq_term_in(sig, bound, *t.spine->0.args@[1]) + ")"@,
{
    lemma_heads_differ();
}

/// A negation is its operand behind the sign, in parentheses.
pub proof fn a_negation_is_written_before_its_operand(
    sig: Signature,
    bound: Seq<Seq<char>>,
    t: Term,
)
    requires
        is_negation(t),
    ensures
        rocq_term_in(sig, bound, t) == "(~ "@ + rocq_term_in(sig, bound, *t.spine->0.args@[0])
            + ")"@,
{
}

/// The term is neither an equation nor an operator with its operands: it is written by its shape.
pub open spec fn is_plain(t: Term) -> bool {
    t.equation is None && !is_binary(t) && !is_negation(t)
}

proof fn lemma_plain_shape(t: Term)
    requires
        is_plain(t),
    ensures
        t.spine matches Some(s) ==> !(s.args@.len() == 2 && rocq_infix(
            s.head@,
        ) is Some) && !(s.args@.len() == 1 && s.head@ == "not"@),
{
    if let Some(s) = t.spine {
        if s.args@.len() == 2 && rocq_infix(s.head@) is Some {
            lemma_heads_differ();
            assert(sign_of(s.head@, rocq_infix(s.head@)->0));
        }
    }
}

/// A variable inside a binder of its name keeps it; outside, it is written as statements write its
/// name.
pub proof fn a_variable_is_written_by_name(sig: Signature, bound: Seq<Seq<char>>, t: Term)
    requires
        is_plain(t),
        t.node is Var,
    ensures
        ({
            let name = t.node->Var_0.name@;
            &&& (exists|i: int| 0 <= i < bound.len() && bound[i] == name) ==> rocq_term_in(
                sig,
                bound,
                t,
            ) == name
            &&& (forall|i: int| 0 <= i < bound.len() ==> bound[i] != name) ==> rocq_term_in(
                sig,
                bound,
                t,
            ) == sig.written_name(name)
        }),
{
    lemma_plain_shape(t);
}

/// The truth values are the propositions `True` and `False`. Any other constant is written as
/// statements write its name.
pub proof fn a_constant_is_written_by_name(sig: Signature, bound: Seq<Seq<char>>, t: Term)
    requires
        is_plain(t),
        t.node is Const,
    ensures
        ({
            let name = t.node->Const_0@;
            let text = rocq_term_in(sig, bound, t);
            &&& sig.written_name(name) != name ==> text == sig.written_name(name)
            &&& sig.written_name(name) == name && name == "true"@ ==> text == "True"@
            &&& sig.written_name(name) == name && name == "false"@ ==> text == "False"@
            &&& sig.written_name(name) == name && name != "true"@ && name != "false"@ ==> text
                == name
        }),
{
    reveal_strlit("true");
    reveal_strlit("false");
    assert("true"@.len() == 4 && "false"@.len() == 5);
    lemma_plain_shape(t);
}

/// An application is the function, a blank and the argument; the argument is in parentheses exactly
/// where it is an application or an abstraction.
pub proof fn an_application_stands_before_its_argument(
    sig: Signature,
    bound: Seq<Seq<char>>,
    t: Term,
)
    requires
        is_plain(t),
        t.node is App,
    ensures
        ({
            let fun = rocq_term_in(sig, bound, *t.node->App_0);
            let arg = rocq_term_in(sig, bound, *t.node->App_1);
            let text = rocq_term_in(sig, bound, t);
            match t.node->App_1.node {
                TermNode::App(_, _) => text == fun + " ("@ + arg + ")"@,
                TermNode::Lam(_, _) => text == fun + " ("@ + arg + ")"@,
                TermNode::Var(_) => text == fun + " "@ + arg,
                TermNode::Const(_) => text == fun + " "@ + arg,
            }
        }),
{
    lemma_plain_shape(t);
}

/// An abstraction names its variable and the variable's type; its body stands inside the binder.
pub proof fn an_abstraction_binds_its_variable(sig: Signature, bound: Seq<Seq<char>>, t: Term)
    requires
        is_plain(t),
        t.node is Lam,
    ensures
        rocq_term_in(sig, bound, t) == "(fun "@ + t.node->Lam_0.name@ + " : "@ + rocq_type(
            sig,
            t.node->Lam_0.ty,
        ) + " => "@ + rocq_term_in(sig, bound.push(t.node->Lam_0.name@), *t.node->Lam_1) + ")"@,
{
    lemma_plain_shape(t);
}

/// A character that an operator's sign is made of.
pub open spec fn is_sign_char(c: char) -> bool {
    c == '=' || c == '<' || c == '>' || c == '+' || c == '-' || c == '*' || c == '/' || c == '\\'
        || c == '~' || c == ':'
}

/// How many parentheses are open after the first `i` characters.
pub open spec fn depth(text: Seq<char>, i: int) -> int
    decreases i,
{
    if i <= 0 {
        0
    } else {
        depth(text, i - 1) + if text[i - 1] == '(' {
            1
        } else if text[i - 1] == ')' {
            -1int
        } else {
            0
        }
    }
}

/// The parentheses of the text match.
pub open spec fn is_balanced(text: Seq<char>) -> bool {
    &&& depth(text, text.len() as int) == 0
    &&& forall|i: int| 0 <= i <= text.len() ==> #[trigger] depth(text, i) >= 0
}

/// The parentheses of the text match, and every sign in it stands inside some.
pub open spec fn is_closed_text(text: Seq<char>) -> bool {
    &&& is_balanced(text)
    &&& forall|i: int|
        0 <= i < text.len() && is_sign_char(#[trigger] text[i]) ==> depth(text, i) > 0
}

proof fn lemma_depth_concat(a: Seq<char>, b: Seq<char>, i: int)
    requires
        0 <= i <= a.len() + b.len(),
    ensures
        i <= a.len() ==> depth(a + b, i) == depth(a, i),
        i >= a.len() ==> depth(a + b, i) == depth(a, a.len() as int) + depth(b, i - a.len()),
    decreases i,
{
    if i > 0 {
        lemma_depth_concat(a, b, i - 1);
        if i <= a.len() {
            assert((a + b)[i - 1] == a[i - 1]);
        } else {
            assert((a + b)[i - 1] == b[i - 1 - a.len()]);
        }
    }
}

proof fn lemma_balanced_concat(a: Seq<char>, b: Seq<char>)
    requires
        is_balanced(a),
        is_balanced(b),
    ensures
        is_balanced(a + b),
        is_closed_text(a) && is_closed_text(b) ==> is_closed_text(a + b),
{
    let text = a + b;
    assert forall|i: int| 0 <= i <= text.len() implies #[trigger] depth(text, i) >= 0 by {
        lemma_depth_concat(a, b, i);
        if i <= a.len() {
            assert(depth(a, i) >= 0);
        } else {
            assert(depth(b, i - a.len()) >= 0);
        }
    }
    lemma_depth_concat(a, b, text.len() as int);
    if is_closed_text(a) && is_closed_text(b) {
        assert forall|i: int| 0 <= i < text.len() && is_sign_char(#[trigger] text[i]) implies depth(
            text,
            i,
        ) > 0 by {
            lemma_depth_concat(a, b, i);
            if i < a.len() {
                assert(is_sign_char(a[i]));
            } else {
                assert(is_sign_char(b[i - a.len()]));
            }
        }
    }
}

proof fn lemma_no_parentheses(text: Seq<char>)
    requires
        forall|i: int| 0 <= i < text.len() ==> #[trigger] text[i] != '(' && text[i] != ')',
    ensures
        is_balanced(text),
        (forall|i: int| 0 <= i < text.len() ==> !is_sign_char(#[trigger] text[i]))
            ==> is_closed_text(text),
{
    assert forall|i: int| 0 <= i <= text.len() implies #[trigger] depth(text, i) == 0 by {
        lemma_flat_depth(text, i);
    }
}

proof fn lemma_flat_depth(text: Seq<char>, n: int)
    requires
        forall|i: int| 0 <= i < text.len() ==> #[trigger] text[i] != '(' && text[i] != ')',
        0 <= n <= text.len(),
    ensures
        depth(text, n) == 0,
    decreases n,
{
    if n > 0 {
        lemma_flat_depth(text, n - 1);
        assert(text[n - 1] != '(' && text[n - 1] != ')');
    }
}

proof fn lemma_enclosed_is_closed(inner: Seq<char>)
    requires
        is_balanced(inner),
    ensures
        is_closed_text(seq!['('] + inner + seq![')']),
{
    let open = seq!['('];
    let close = seq![')'];
    let text = open + inner + close;
    assert(depth(open, 0) == 0);
    assert(depth(open, 1) == 1);
    assert(depth(close, 0) == 0);
    assert(depth(close, 1) == -1);
    assert forall|i: int| 0 <= i <= text.len() implies #[trigger] depth(text, i) >= 0 && (0 < i
        < text.len() ==> depth(text, i) > 0) by {
        lemma_depth_concat(open + inner, close, i);
        if i <= 1 + inner.len() {
            lemma_depth_concat(open, inner, i);
            if i >= 1 {
                assert(depth(inner, i - 1) >= 0);
            }
        }
        lemma_depth_concat(open, inner, 1 + inner.len() as int);
    }
    lemma_depth_concat(open + inner, close, text.len() as int);
    lemma_depth_concat(open, inner, 1 + inner.len() as int);
    assert forall|i: int| 0 <= i < text.len() && is_sign_char(#[trigger] text[i]) implies depth(
        text,
        i,
    ) > 0 by {
        assert(text[0] == '(');
        assert(depth(text, i) >= 0 && (0 < i < text.len() ==> depth(text, i) > 0));
    }
}

/// An operator's sign with the blanks around it.
pub open spec fn is_spaced_sign(op: Seq<char>) -> bool {
    &&& op.len() >= 3
    &&& op[0] == ' '
    &&& op.last() == ' '
    &&& forall|i: int| 0 < i < op.len() - 1 ==> is_sign_char(#[trigger] op[i])
}

proof fn lemma_sign_position(
    a1: Seq<char>,
    op1: Seq<char>,
    b1: Seq<char>,
    a2: Seq<char>,
    op2: Seq<char>,
    b2: Seq<char>,
)
    requires
        is_closed_text(a1),
        is_closed_text(a2),
        is_spaced_sign(op1),
        is_spaced_sign(op2),
        a1 + op1 + b1 == a2 + op2 + b2,
    ensures
        a1.len() >= a2.len(),
{
    if a1.len() < a2.len() {
        let text = a1 + op1 + b1;
        let p = a1.len() as int + 1;
        assert(text[p] == op1[1]);
        assert(is_sign_char(op1[1]));
        assert(text == a1 + (op1 + b1)) by {
            assert(a1 + op1 + b1 =~= a1 + (op1 + b1));
        }
        assert(text == a2 + (op2 + b2)) by {
            assert(a2 + op2 + b2 =~= a2 + (op2 + b2));
        }
        lemma_depth_concat(a1, op1 + b1, p);
        assert((op1 + b1)[0] == ' ');
        assert(depth(op1 + b1, 0) == 0);
        assert(depth(op1 + b1, 1) == 0);
        if p < a2.len() {
            assert((a2 + (op2 + b2))[p] == a2[p]);
            lemma_depth_concat(a2, op2 + b2, p);
            assert(is_sign_char(a2[p]));
        } else {
            assert((a2 + (op2 + b2))[p] == op2[0]);
        }
    }
}

/// A text of two operands around a sign reads back: only one first operand, one sign and one second
/// operand give it.
pub proof fn operands_and_sign_read_back(
    a1: Seq<char>,
    op1: Seq<char>,
    b1: Seq<char>,
    a2: Seq<char>,
    op2: Seq<char>,
    b2: Seq<char>,
)
    requires
        is_closed_text(a1),
        is_closed_text(a2),
        is_spaced_sign(op1),
        is_spaced_sign(op2),
        "("@ + a1 + op1 + b1 + ")"@ == "("@ + a2 + op2 + b2 + ")"@,
    ensures
        a1 == a2,
        op1 == op2,
        b1 == b2,
{
    let text = "("@ + a1 + op1 + b1 + ")"@;
    let open = "("@.len() as int;
    let end = text.len() - ")"@.len();
    assert(a1 + op1 + b1 =~= text.subrange(open, end));
    assert(a2 + op2 + b2 =~= text.subrange(open, end));
    lemma_sign_position(a1, op1, b1, a2, op2, b2);
    lemma_sign_position(a2, op2, b2, a1, op1, b1);
    let inner = a1 + op1 + b1;
    assert(a1 =~= inner.take(a1.len() as int));
    assert(a2 =~= inner.take(a1.len() as int));
    let rest = inner.skip(a1.len() as int);
    assert(rest =~= op1 + b1);
    assert(rest =~= op2 + b2);
    if op1.len() < op2.len() {
        assert(rest[op1.len() - 1] == op1.last());
        assert(rest[op1.len() - 1] == op2[op1.len() - 1]);
        assert(is_sign_char(op2[op1.len() - 1]));
    }
    if op2.len() < op1.len() {
        assert(rest[op2.len() - 1] == op2.last());
        assert(rest[op2.len() - 1] == op1[op2.len() - 1]);
        assert(is_sign_char(op1[op2.len() - 1]));
    }
    assert(op1 =~= rest.take(op1.len() as int));
    assert(op2 =~= rest.take(op1.len() as int));
    assert(b1 =~= rest.skip(op1.len() as int));
    assert(b2 =~= rest.skip(op1.len() as int));
}

/// A name without parentheses and signs.
pub open spec fn is_bare(n: Seq<char>) -> bool {
    forall|i: int|
        0 <= i < n.len() ==> #[trigger] n[i] != '(' && n[i] != ')' && !is_sign_char(n[i])
}

/// Every name that writing the term writes out is bare, and every type of a binder is a closed
/// text.
pub open spec fn has_bare_names(sig: Signature, bound: Seq<Seq<char>>, t: Term) -> bool
    decreases t,
{
    if t.equation is Some {
        &&& has_bare_names(sig, bound, *(t.equation->0).0)
        &&& has_bare_names(sig, bound, *(t.equation->0).1)
    } else if is_binary(t) {
        &&& has_bare_names(sig, bound, *t.spine->0.args@[0])
        &&& has_bare_names(sig, bound, *t.spine->0.args@[1])
    } else if is_negation(t) {
        has_bare_names(sig, bound, *t.spine->0.args@[0])
    } else {
        match t.node {
            TermNode::Var(v) => is_bare(v.name@) && is_bare(sig.written_name(v.name@)),
            TermNode::Const(c) => is_bare(c@) && is_bare(sig.written_name(c@)),
            TermNode::App(f, x) => has_bare_names(sig, bound, *f) && has_bare_names(sig, bound, *x),
            TermNode::Lam(v, body) => {
                &&& is_bare(v.name@)
                &&& is_closed_text(rocq_type(sig, v.ty))
                &&& has_bare_names(sig, bound.push(v.name@), *body)
            },
        }
    }
}

proof fn lemma_bare_is_closed(n: Seq<char>)
    requires
        is_bare(n),
    ensures
        is_closed_text(n),
{
    assert forall|i: int| 0 <= i < n.len() implies #[trigger] n[i] != '(' && n[i] != ')' by {}
    lemma_no_parentheses(n);
}

proof fn lemma_sign_is_spaced(head: Seq<char>, sign: Seq<char>)
    requires
        sign_of(head, sign) || sign == " = "@,
    ensures
        is_spaced_sign(sign),
        is_balanced(sign),
{
    reveal_strlit(" = ");
    reveal_strlit(" < ");
    reveal_strlit(" <= ");
    reveal_strlit(" > ");
    reveal_strlit(" >= ");
    reveal_strlit(" + ");
    reveal_strlit(" - ");
    reveal_strlit(" * ");
    reveal_strlit(" /\\ ");
    reveal_strlit(" \\/ ");
    reveal_strlit(" -> ");
    reveal_strlit(" <-> ");
    assert(is_spaced_sign(sign));
    assert forall|i: int| 0 <= i < sign.len() implies #[trigger] sign[i] != '(' && sign[i]
        != ')' by {
        if 0 < i < sign.len() - 1 {
            assert(is_sign_char(sign[i]));
        }
    }
    lemma_no_parentheses(sign);
}

proof fn lemma_two_operands_are_closed(a: Seq<char>, op: Seq<char>, b: Seq<char>)
    requires
        is_closed_text(a),
        is_balanced(op),
        is_closed_text(b),
    ensures
        is_closed_text("("@ + a + op + b + ")"@),
{
    reveal_strlit("(");
    reveal_strlit(")");
    lemma_balanced_concat(a, op);
    lemma_balanced_concat(a + op, b);
    lemma_enclosed_is_closed(a + op + b);
    assert("("@ + a + op + b + ")"@ =~= seq!['('] + (a + op + b) + seq![')']);
}

/// Writing a term of bare names gives a text whose parentheses match and whose signs all stand
/// inside some.
pub proof fn a_written_term_is_closed(sig: Signature, bound: Seq<Seq<char>>, t: &Term)
    requires
        has_bare_names(sig, bound, *t),
    ensures
        is_closed_text(rocq_term_in(sig, bound, *t)),
    decreases *t,
{
    reveal_strlit("(");
    reveal_strlit(")");
    if let Some((lhs, rhs)) = &t.equation {
        let l: &Term = &**lhs;
        let r: &Term = &**rhs;
        a_written_term_is_closed(sig, bound, l);
        a_written_term_is_closed(sig, bound, r);
        lemma_sign_is_spaced(Seq::empty(), " = "@);
        lemma_two_operands_are_closed(
            rocq_term_in(sig, bound, *l),
            " = "@,
            rocq_term_in(sig, bound, *r),
        );
        an_equation_is_written_between_its_sides(sig, bound, *t);
    } else if is_binary(*t) {
        let sign = choose|sign: Seq<char>| #[trigger] sign_of(t.spine->0.head@, sign);
        let l: &Term = &*t.spine->0.args@[0];
        let r: &Term = &*t.spine->0.args@[1];
        a_written_term_is_closed(sig, bound, l);
        a_written_term_is_closed(sig, bound, r);
        lemma_sign_is_spaced(t.spine->0.head@, sign);
        lemma_two_operands_are_closed(
            rocq_term_in(sig, bound, *l),
            sign,
            rocq_term_in(sig, bound, *r),
        );
        an_operator_stands_between_its_operands_in_order(sig, bound, *t, sign);
    } else if is_negation(*t) {
        reveal_strlit("(~ ");
        let arg: &Term = &*t.spine->0.args@[0];
        a_written_term_is_closed(sig, bound, arg);
        let text = rocq_term_in(sig, bound, *arg);
        let tilde = seq!['~', ' '];
        lemma_no_parentheses(tilde);
        lemma_balanced_concat(tilde, text);
        lemma_enclosed_is_closed(tilde + text);
        a_negation_is_written_before_its_operand(sig, bound, *t);
        assert("(~ "@ + text + ")"@ =~= seq!['('] + (tilde + text) + seq![')']);
    } else {
        lemma_shape_is_closed(sig, bound, t);
    }
}

proof fn lemma_shape_is_closed(sig: Signature, bound: Seq<Seq<char>>, t: &Term)
    requires
        has_bare_names(sig, bound, *t),
        is_plain(*t),
    ensures
        is_closed_text(rocq_term_in(sig, bound, *t)),
    decreases t.node,
{
    match &t.node {
        TermNode::Var(v) => {
            a_variable_is_written_by_name(sig, bound, *t);
            lemma_bare_is_closed(v.name@);
            lemma_bare_is_closed(sig.written_name(v.name@));
        },
        TermNode::Const(c) => {
            reveal_strlit("True");
            reveal_strlit("False");
            a_constant_is_written_by_name(sig, bound, *t);
            lemma_bare_is_closed(c@);
            lemma_bare_is_closed(sig.written_name(c@));
            lemma_bare_is_closed("True"@);
            lemma_bare_is_closed("False"@);
        },
        TermNode::App(f, x) => {
            reveal_strlit(" ");
            reveal_strlit(" (");
            reveal_strlit(")");
            let fun: &Term = &**f;
            let arg: &Term = &**x;
            a_written_term_is_closed(sig, bound, fun);
            a_written_term_is_closed(sig, bound, arg);
            an_application_stands_before_its_argument(sig, bound, *t);
            let ft = rocq_term_in(sig, bound, *fun);
            let xt = rocq_term_in(sig, bound, *arg);
            lemma_no_parentheses(" "@);
            lemma_balanced_concat(ft, " "@);
            lemma_balanced_concat(ft + " "@, xt);
            lemma_enclosed_is_closed(xt);
            let wrapped = seq!['('] + xt + seq![')'];
            lemma_balanced_concat(ft + " "@, wrapped);
            assert(ft + " ("@ + xt + ")"@ =~= ft + " "@ + wrapped);
        },
        TermNode::Lam(v, b) => {
            reveal_strlit("(fun ");
            reveal_strlit(" : ");
            reveal_strlit(" => ");
            reveal_strlit(")");
            let body: &Term = &**b;
            a_written_term_is_closed(sig, bound.push(v.name@), body);
            an_abstraction_binds_its_variable(sig, bound, *t);
            let text = rocq_term_in(sig, bound.push(v.name@), *body);
            let ty = rocq_type(sig, v.ty);
            let opening = seq!['f', 'u', 'n', ' '];
            lemma_no_parentheses(opening);
            lemma_bare_is_closed(v.name@);
            lemma_no_parentheses(" : "@);
            lemma_no_parentheses(" => "@);
            lemma_balanced_concat(opening, v.name@);
            lemma_balanced_concat(opening + v.name@, " : "@);
            lemma_balanced_concat(opening + v.name@ + " : "@, ty);
            lemma_balanced_concat(opening + v.name@ + " : "@ + ty, " => "@);
            lemma_balanced_concat(opening + v.name@ + " : "@ + ty + " => "@, text);
            let inner = opening + v.name@ + " : "@ + ty + " => "@ + text;
            lemma_enclosed_is_closed(inner);
            assert("(fun "@ + v.name@ + " : "@ + ty + " => "@ + text + ")"@ =~= seq!['('] + inner
                + seq![')']);
        },
    }
}

/// Two operators with their operands that are written alike have the same sign, first operands that
/// are written alike and second operands that are written alike. So swapping two operands that are
/// written differently changes the text.
pub proof fn operators_are_read_back_with_their_operands_in_order(
    sig: Signature,
    bound: Seq<Seq<char>>,
    s: Term,
    t: Term,
    sign1: Seq<char>,
    sign2: Seq<char>,
)
    requires
        is_binary(s),
        is_binary(t),
        sign_of(s.spine->0.head@, sign1),
        sign_of(t.spine->0.head@, sign2),
        has_bare_names(sig, bound, s),
        has_bare_names(sig, bound, t),
        rocq_term_in(sig, bound, s) == rocq_term_in(sig, bound, t),
    ensures
        sign1 == sign2,
        rocq_term_in(sig, bound, *s.spine->0.args@[0]) == rocq_term_in(
            sig,
            bound,
            *t.spine->0.args@[0],
        ),
        rocq_term_in(sig, bound, *s.spine->0.args@[1]) == rocq_term_in(
            sig,
            bound,
            *t.spine->0.args@[1],
        ),
{
    let s0: &Term = &*s.spine->0.args@[0];
    let s1: &Term = &*s.spine->0.args@[1];
    let t0: &Term = &*t.spine->0.args@[0];
    let t1: &Term = &*t.spine->0.args@[1];
    a_written_term_is_closed(sig, bound, s0);
    a_written_term_is_closed(sig, bound, t0);
    an_operator_stands_between_its_operands_in_order(sig, bound, s, sign1);
    an_operator_stands_between_its_operands_in_order(sig, bound, t, sign2);
    lemma_sign_is_spaced(s.spine->0.head@, sign1);
    lemma_sign_is_spaced(t.spine->0.head@, sign2);
    operands_and_sign_read_back(
        rocq_term_in(sig, bound, *s0),
        sign1,
        rocq_term_in(sig, bound, *s1),
        rocq_term_in(sig, bound, *t0),
        sign2,
        rocq_term_in(sig, bound, *t1),
    );
}

/// Two equations that are written alike have left sides that are written alike and right sides that
/// are.
pub proof fn equations_are_read_back_with_their_sides_in_order(
    sig: Signature,
    bound: Seq<Seq<char>>,
    s: Term,
    t: Term,
)
    requires
        s.equation is Some,
        t.equation is Some,
        has_bare_names(sig, bound, s),
        has_bare_names(sig, bound, t),
        rocq_term_in(sig, bound, s) == rocq_term_in(sig, bound, t),
    ensures
        rocq_term_in(sig, bound, *(s.equation->0).0) == rocq_term_in(
            sig,
            bound,
            *(t.equation->0).0,
        ),
        rocq_term_in(sig, bound, *(s.equation->0).1) == rocq_term_in(
            sig,
            bound,
            *(t.equation->0).1,
        ),
{
    let s0: &Term = &*(s.equation->0).0;
    let s1: &Term = &*(s.equation->0).1;
    let t0: &Term = &*(t.equation->0).0;
    let t1: &Term = &*(t.equation->0).1;
    a_written_term_is_closed(sig, bound, s0);
    a_written_term_is_closed(sig, bound, t0);
    lemma_sign_is_spaced(Seq::empty(), " = "@);
    operands_and_sign_read_back(
        rocq_term_in(sig, bound, *s0),
        " = "@,
        rocq_term_in(sig, bound, *s1),
        rocq_term_in(sig, bound, *t0),
        " = "@,
        rocq_term_in(sig, bound, *t1),
    );
}

} // verus!
