//! What the operations on text do, over the characters themselves.
use vstd::prelude::*;

use crate::text::{
    decimal_text, has_word, is_break, is_numeral, lemma_word_ends, lemma_word_length, lines_of,
    pieces, texts, word_length, words_of,
};

verus! {

/// Pieces are joined in order, each once: the `i`-th part of the text is the `i`-th piece.
pub proof fn pieces_are_joined_in_order(n: nat, piece: spec_fn(int) -> Seq<char>) -> (parts: Seq<
    Seq<char>,
>)
    ensures
        parts.len() == n,
        forall|i: int| 0 <= i < n ==> #[trigger] parts[i] == piece(i),
        pieces(n, piece) == parts.flatten(),
    decreases n,
{
    if n == 0 {
        Seq::empty()
    } else {
        let before = pieces_are_joined_in_order((n - 1) as nat, piece);
        before.lemma_flatten_push(piece(n - 1));
        before.push(piece(n - 1))
    }
}

/// The texts of a list of strings are those of its strings, in order.
pub proof fn texts_are_those_of_the_strings(names: Seq<String>)
    ensures
        texts(names).len() == names.len(),
        forall|i: int| 0 <= i < names.len() ==> #[trigger] texts(names)[i] == names[i]@,
{
}

/// The number that a text of decimal digits denotes.
pub open spec fn value_of(digits: Seq<char>) -> nat
    decreases digits.len(),
{
    if digits.len() == 0 {
        0
    } else {
        value_of(digits.drop_last()) * 10 + (digits.last() as nat - '0' as nat) as nat
    }
}

/// Reading a number that was written gives the number back. It is written in decimal digits alone,
/// at least one, and without leading zeros.
pub proof fn a_number_reads_back(n: nat)
    ensures
        value_of(decimal_text(n)) == n,
        decimal_text(n).len() >= 1,
        forall|i: int| 0 <= i < decimal_text(n).len() ==> '0' <= #[trigger] decimal_text(n)[i] <= '9',
        decimal_text(n).len() > 1 ==> decimal_text(n)[0] != '0',
    decreases n,
{
    let text = decimal_text(n);
    if n < 10 {
        assert(text.drop_last() =~= Seq::<char>::empty());
        assert(text[0] as nat == 48 + n);
        assert(value_of(Seq::<char>::empty()) == 0);
    } else {
        a_number_reads_back(n / 10);
        let shorter = decimal_text(n / 10);
        assert(text.drop_last() =~= shorter);
        assert(text.last() as nat == 48 + n % 10);
        assert(text[0] == shorter[0]);
        if shorter.len() == 1 {
            assert(value_of(shorter) == n / 10);
            assert(shorter.drop_last() =~= Seq::<char>::empty());
            assert(value_of(Seq::<char>::empty()) == 0);
            assert('0' <= shorter[0]);
            assert(shorter.last() as nat == 48 + n / 10);
        }
        assert forall|i: int| 0 <= i < text.len() implies '0' <= #[trigger] text[i] <= '9' by {
            if i < shorter.len() {
                assert(text[i] == shorter[i]);
            }
        }
    }
}

/// A numeral is a text of digits and minus signs that is not empty.
pub proof fn a_numeral_is_made_of_digits_and_minus_signs(s: Seq<char>)
    ensures
        is_numeral(s) <==> s.len() > 0 && forall|i: int|
            0 <= i < s.len() ==> '0' <= #[trigger] s[i] <= '9' || s[i] == '-',
{
    if s.len() > 0 && forall|i: int|
        0 <= i < s.len() ==> '0' <= #[trigger] s[i] <= '9' || s[i] == '-' {
        assert(is_numeral(s));
    }
    if is_numeral(s) {
        assert forall|i: int| 0 <= i < s.len() implies '0' <= #[trigger] s[i] <= '9' || s[i]
            == '-' by {
            assert(crate::text::is_numeral_char(s[i]));
        }
    }
}

proof fn lemma_line_end(line: Seq<char>, rest: Seq<char>)
    requires
        forall|i: int| 0 <= i < line.len() ==> #[trigger] line[i] != '\n',
    ensures
        crate::text::line_length(line) == line.len(),
        crate::text::line_length(line + seq!['\n'] + rest) == line.len(),
    decreases line.len(),
{
    let s = line + seq!['\n'] + rest;
    if line.len() > 0 {
        let later = line.skip(1);
        assert forall|i: int| 0 <= i < later.len() implies #[trigger] later[i] != '\n' by {
            assert(later[i] == line[i + 1]);
        }
        lemma_line_end(later, rest);
        assert(s.skip(1) =~= later + seq!['\n'] + rest);
        assert(s[0] == line[0]);
    } else {
        assert(s[0] == '\n');
    }
}

/// A newline ends a line, with the carriage return before it if there is one; what follows is split
/// on its own. A last line without a newline is a line, and an empty text has none.
pub proof fn a_newline_ends_a_line(line: Seq<char>, rest: Seq<char>)
    requires
        forall|i: int| 0 <= i < line.len() ==> #[trigger] line[i] != '\n',
    ensures
        lines_of(Seq::empty()) == Seq::<Seq<char>>::empty(),
        line.len() > 0 ==> lines_of(line) == seq![line],
        line.len() == 0 || line.last() != '\r' ==> lines_of(line + seq!['\n'] + rest) == seq![line]
            + lines_of(rest),
        lines_of(line + seq!['\r', '\n'] + rest) == seq![line] + lines_of(rest),
{
    lemma_line_end(line, rest);
    let s = line + seq!['\n'] + rest;
    assert(s.take(line.len() as int) =~= line);
    assert(s.skip(line.len() as int + 1) =~= rest);
    let returned = line.push('\r');
    assert forall|i: int| 0 <= i < returned.len() implies #[trigger] returned[i] != '\n' by {
        if i < line.len() {
            assert(returned[i] == line[i]);
        }
    }
    lemma_line_end(returned, rest);
    let r = returned + seq!['\n'] + rest;
    assert(line + seq!['\r', '\n'] + rest =~= r);
    assert(r.take(returned.len() as int) =~= returned);
    assert(returned.drop_last() =~= line);
    assert(r.skip(returned.len() as int + 1) =~= rest);
}

/// The text holds neither a blank nor a parenthesis.
pub open spec fn is_one_word(s: Seq<char>) -> bool {
    forall|i: int| 0 <= i < s.len() ==> #[trigger] s[i] != ' ' && s[i] != '(' && s[i] != ')'
}

/// A text without breaks is its own first word.
pub proof fn lemma_one_word(s: Seq<char>)
    requires
        is_one_word(s),
    ensures
        word_length(s) == s.len(),
{
    assert forall|i: int| 0 <= i < s.len() implies !is_break(#[trigger] s[i]) by {}
    lemma_word_length(s, s.len() as int);
}

/// Where a word is followed by a break, the first word of the text is that word.
pub proof fn lemma_first_word(word: Seq<char>, d: char, rest: Seq<char>)
    requires
        is_one_word(word),
        d == ' ' || d == '(' || d == ')',
    ensures
        ({
            let s = word + seq![d] + rest;
            &&& word_length(s) == word.len()
            &&& s.take(word.len() as int) == word
            &&& s[word.len() as int] == d
            &&& s.skip(word.len() as int + 1) == rest
        }),
{
    let s = word + seq![d] + rest;
    assert forall|i: int| 0 <= i < word.len() implies !is_break(#[trigger] s[i]) by {
        assert(s[i] == word[i]);
    }
    lemma_word_length(s, word.len() as int);
    assert(s.take(word.len() as int) =~= word);
    assert(s.skip(word.len() as int + 1) =~= rest);
}

/// A blank or a parenthesis, and nothing else, ends a word; what follows is split on its own.
pub proof fn a_blank_or_a_parenthesis_ends_a_word(word: Seq<char>, d: char, rest: Seq<char>)
    requires
        is_one_word(word),
        d == ' ' || d == '(' || d == ')',
    ensures
        words_of(word) == seq![word],
        words_of(word + seq![d] + rest) == seq![word] + words_of(rest),
{
    lemma_one_word(word);
    lemma_first_word(word, d, rest);
}

/// `n` stands in `s` at this position as a word: only a blank, a parenthesis or an end of the text
/// is next to it.
pub open spec fn is_word_at(s: Seq<char>, n: Seq<char>, p: int) -> bool {
    &&& 0 <= p
    &&& p + n.len() <= s.len()
    &&& s.subrange(p, p + n.len()) == n
    &&& p > 0 ==> s[p - 1] == ' ' || s[p - 1] == '(' || s[p - 1] == ')'
    &&& p + n.len() < s.len() ==> s[p + n.len()] == ' ' || s[p + n.len()] == '(' || s[p + n.len()]
        == ')'
}

/// The words of a text are exactly the texts without a blank or a parenthesis that stand in it
/// between two of them.
pub proof fn words_stand_between_breaks(s: Seq<char>, n: Seq<char>)
    ensures
        has_word(s, n) <==> is_one_word(n) && exists|p: int| #[trigger] is_word_at(s, n, p),
    decreases s.len(),
{
    let k = word_length(s) as int;
    lemma_word_ends(s);
    let first = s.take(k);
    assert forall|i: int| 0 <= i < k implies #[trigger] first[i] != ' ' && first[i] != '('
        && first[i] != ')' by {
        assert(!is_break(s[i]));
    }
    if k == s.len() {
        assert(first =~= s);
        assert(words_of(s) == seq![s]);
        assert(seq![s][0] == s);
        if s == n {
            assert(s.subrange(0, s.len() as int) =~= s);
            assert(is_word_at(s, n, 0));
        }
        if is_one_word(n) && exists|p: int| #[trigger] is_word_at(s, n, p) {
            let p = choose|p: int| #[trigger] is_word_at(s, n, p);
            if p > 0 {
                assert(!is_break(s[p - 1]));
            }
            if p + n.len() < s.len() {
                assert(!is_break(s[p + n.len()]));
            }
            assert(s.subrange(p, p + n.len()) =~= s);
        }
    } else {
        let rest = s.skip(k + 1);
        words_stand_between_breaks(rest, n);
        let later = words_of(rest);
        assert(words_of(s) == seq![first] + later);
        if first == n {
            assert(words_of(s)[0] == n);
            assert(s.subrange(0, k) =~= first);
            assert(is_word_at(s, n, 0));
        } else if has_word(rest, n) {
            let i = choose|i: int| 0 <= i < later.len() && later[i] == n;
            assert(words_of(s)[i + 1] == n);
            let p = choose|p: int| #[trigger] is_word_at(rest, n, p);
            assert(s.subrange(p + k + 1, p + k + 1 + n.len()) =~= rest.subrange(p, p + n.len()));
            if p > 0 {
                assert(s[p + k] == rest[p - 1]);
            }
            if p + n.len() < rest.len() {
                assert(s[p + k + 1 + n.len()] == rest[p + n.len()]);
            }
            assert(is_word_at(s, n, p + k + 1));
        }
        if has_word(s, n) {
            let i = choose|i: int| 0 <= i < words_of(s).len() && words_of(s)[i] == n;
            if i > 0 {
                assert(later[i - 1] == n);
            }
        }
        if is_one_word(n) && exists|p: int| #[trigger] is_word_at(s, n, p) {
            let p = choose|p: int| #[trigger] is_word_at(s, n, p);
            if p > k {
                assert(rest.subrange(p - k - 1, p - k - 1 + n.len()) =~= s.subrange(
                    p,
                    p + n.len(),
                ));
                if p > k + 1 {
                    assert(rest[p - k - 2] == s[p - 1]);
                }
                if p + n.len() < s.len() {
                    assert(rest[p - k - 1 + n.len()] == s[p + n.len()]);
                }
                assert(is_word_at(rest, n, p - k - 1));
            } else {
                if p > 0 {
                    assert(!is_break(s[p - 1]));
                }
                assert(p == 0);
                if n.len() > k {
                    assert(s.subrange(0, n.len() as int)[k] == s[k]);
                    assert(n[k] == s[k]);
                } else if n.len() < k {
                    assert(!is_break(s[n.len() as int]));
                }
                assert(s.subrange(0, k) =~= first);
            }
        }
    }
}

} // verus!
