//! Text: the characters a file is made of, and the few operations on them that the emitter needs.
use vstd::prelude::*;

verus! {

/// The concatenation of `piece(0)`, `piece(1)`, ..., `piece(n - 1)`.
pub open spec fn pieces(n: nat, piece: spec_fn(int) -> Seq<char>) -> Seq<char>
    decreases n,
{
    if n == 0 {
        Seq::empty()
    } else {
        pieces((n - 1) as nat, piece) + piece(n - 1)
    }
}

/// `needle` stands somewhere in `text`, in one piece.
pub open spec fn occurs(needle: Seq<char>, text: Seq<char>) -> bool {
    exists|before: Seq<char>, after: Seq<char>| text == #[trigger] (before + needle + after)
}

/// The texts of a list of strings.
pub open spec fn texts(names: Seq<String>) -> Seq<Seq<char>> {
    Seq::new(names.len(), |i: int| names[i]@)
}

/// Whether two strings hold the same characters.
pub fn same(a: &str, b: &str) -> (r: bool)
    ensures
        r == (a@ == b@),
{
    let left: String = a.to_owned();
    let right: String = b.to_owned();
    left == right
}

/// The decimal digit `d`, for `d` below ten.
pub open spec fn digit(d: nat) -> char {
    (48 + d) as char
}

/// `n` in decimal, without leading zeros.
pub open spec fn decimal_text(n: nat) -> Seq<char>
    decreases n,
{
    if n < 10 {
        seq![digit(n)]
    } else {
        decimal_text(n / 10).push(digit(n % 10))
    }
}

fn digit_str(d: u64) -> (r: &'static str)
    requires
        d < 10,
    ensures
        r@ == seq![digit(d as nat)],
{
    proof {
        reveal_strlit("0");
        reveal_strlit("1");
        reveal_strlit("2");
        reveal_strlit("3");
        reveal_strlit("4");
        reveal_strlit("5");
        reveal_strlit("6");
        reveal_strlit("7");
        reveal_strlit("8");
        reveal_strlit("9");
    }
    match d {
        0 => "0",
        1 => "1",
        2 => "2",
        3 => "3",
        4 => "4",
        5 => "5",
        6 => "6",
        7 => "7",
        8 => "8",
        _ => "9",
    }
}

/// Writes `n` in decimal.
pub fn decimal(n: u64) -> (r: String)
    ensures
        r@ == decimal_text(n as nat),
    decreases n,
{
    if n < 10 {
        digit_str(n).to_owned()
    } else {
        let mut s: String = decimal(n / 10);
        s.append(digit_str(n % 10));
        s
    }
}

/// A decimal digit or a minus sign.
pub open spec fn is_numeral_char(c: char) -> bool {
    '0' <= c <= '9' || c == '-'
}

/// A non-empty text of decimal digits and minus signs.
pub open spec fn is_numeral(s: Seq<char>) -> bool {
    &&& s.len() > 0
    &&& forall|i: int| 0 <= i < s.len() ==> is_numeral_char(#[trigger] s[i])
}

/// Whether `s` is a numeric literal: digits and minus signs, at least one of them.
pub fn numeral(s: &str) -> (r: bool)
    ensures
        r == is_numeral(s@),
{
    let mut all: bool = true;
    for c in it: s.chars()
        invariant
            it.seq() == s@,
            all == (forall|i: int| 0 <= i < it.index() ==> is_numeral_char(#[trigger] s@[i])),
    {
        if !('0' <= c && c <= '9' || c == '-') {
            all = false;
        }
    }
    all && !s.is_empty()
}

/// Where the first newline of `s` stands, or its length where there is none.
pub open spec fn line_length(s: Seq<char>) -> nat
    decreases s.len(),
{
    if s.len() == 0 || s[0] == '\n' {
        0
    } else {
        1 + line_length(s.skip(1))
    }
}

/// A line without the carriage return that may stand before its newline.
pub open spec fn without_return(line: Seq<char>) -> Seq<char> {
    if line.len() > 0 && line.last() == '\r' {
        line.drop_last()
    } else {
        line
    }
}

/// The lines of a text. A newline ends a line, a carriage return before it belongs to the line
/// ending, and the newline of the last line may be missing.
pub open spec fn lines_of(s: Seq<char>) -> Seq<Seq<char>>
    decreases s.len(),
{
    if s.len() == 0 {
        Seq::empty()
    } else if line_length(s) >= s.len() {
        seq![s]
    } else {
        seq![without_return(s.take(line_length(s) as int))] + lines_of(
            s.skip(line_length(s) as int + 1),
        )
    }
}

proof fn lemma_line_length(s: Seq<char>, k: int)
    requires
        0 <= k <= s.len(),
        forall|i: int| 0 <= i < k ==> s[i] != '\n',
        k < s.len() ==> s[k] == '\n',
    ensures
        line_length(s) == k,
    decreases s.len(),
{
    if k > 0 {
        let t = s.skip(1);
        assert forall|i: int| 0 <= i < k - 1 implies t[i] != '\n' by {
            assert(t[i] == s[i + 1]);
        }
        lemma_line_length(t, k - 1);
    }
}

/// Splits a text into its lines.
pub fn lines(s: &str) -> (r: Vec<String>)
    ensures
        texts(r@) == lines_of(s@),
{
    let total: usize = s.unicode_len();
    let mut out: Vec<String> = Vec::new();
    let mut start: usize = 0;
    let mut at: usize = 0;
    let mut after_return: bool = false;
    proof {
        assert(s@.skip(0) =~= s@);
        assert(texts(out@) + lines_of(s@) =~= lines_of(s@));
    }
    for c in it: s.chars()
        invariant
            it.seq() == s@,
            total == s@.len(),
            at == it.index(),
            start <= at <= total,
            forall|i: int| start <= i < at ==> s@[i] != '\n',
            after_return == (at > start && s@[at - 1] == '\r'),
            lines_of(s@) == texts(out@) + lines_of(s@.skip(start as int)),
    {
        if c == '\n' {
            let ghost rest = s@.skip(start as int);
            let ghost before = texts(out@);
            let end: usize = if after_return { at - 1 } else { at };
            let line: String = s.substring_char(start, end).to_owned();
            proof {
                lemma_line_length(rest, at - start);
                assert(without_return(rest.take(at - start)) =~= s@.subrange(start as int, end as int));
                assert(rest.skip(at - start + 1) =~= s@.skip(at + 1));
            }
            out.push(line);
            proof {
                assert(texts(out@) =~= before.push(line@));
                assert(before + (seq![line@] + lines_of(s@.skip(at + 1))) =~= texts(out@)
                    + lines_of(s@.skip(at + 1)));
            }
            start = at + 1;
        }
        after_return = c == '\r';
        at = at + 1;
    }
    if start < total {
        let ghost rest = s@.skip(start as int);
        let ghost before = texts(out@);
        let line: String = s.substring_char(start, total).to_owned();
        proof {
            lemma_line_length(rest, total - start);
            assert(line@ =~= rest);
        }
        out.push(line);
        proof {
            assert(texts(out@) =~= before + seq![rest]);
        }
    } else {
        proof {
            assert(texts(out@) + lines_of(s@.skip(start as int)) =~= texts(out@));
        }
    }
    out
}

/// A character that ends a word: a blank or a parenthesis.
pub open spec fn is_break(c: char) -> bool {
    c == ' ' || c == '(' || c == ')'
}

/// Whether `c` ends a word.
pub fn breaks(c: char) -> (r: bool)
    ensures
        r == is_break(c),
{
    c == ' ' || c == '(' || c == ')'
}

/// Where the first word of `s` ends: at the first break, or at the end of `s`.
pub open spec fn word_length(s: Seq<char>) -> nat
    decreases s.len(),
{
    if s.len() == 0 || is_break(s[0]) {
        0
    } else {
        1 + word_length(s.skip(1))
    }
}

/// Where the first break stands is where the first word ends.
pub proof fn lemma_word_length(s: Seq<char>, k: int)
    requires
        0 <= k <= s.len(),
        forall|i: int| 0 <= i < k ==> !is_break(#[trigger] s[i]),
        k < s.len() ==> is_break(s[k]),
    ensures
        word_length(s) == k,
    decreases s.len(),
{
    if k > 0 {
        let t = s.skip(1);
        assert(!is_break(s[0]));
        assert forall|i: int| 0 <= i < k - 1 implies !is_break(#[trigger] t[i]) by {
            assert(t[i] == s[i + 1]);
        }
        lemma_word_length(t, k - 1);
    }
}

/// The first word holds no break, and one follows it unless the text ends there.
pub proof fn lemma_word_ends(s: Seq<char>)
    ensures
        word_length(s) <= s.len(),
        forall|i: int| 0 <= i < word_length(s) ==> !is_break(#[trigger] s[i]),
        word_length(s) < s.len() ==> is_break(s[word_length(s) as int]),
    decreases s.len(),
{
    if s.len() > 0 && !is_break(s[0]) {
        let t = s.skip(1);
        lemma_word_ends(t);
        assert forall|i: int| 0 <= i < word_length(s) implies !is_break(#[trigger] s[i]) by {
            if i > 0 {
                assert(s[i] == t[i - 1]);
            }
        }
    }
}

/// The words of a text: what stands between its breaks, from left to right. Two breaks in a row have
/// an empty word between them.
pub open spec fn words_of(s: Seq<char>) -> Seq<Seq<char>>
    decreases s.len(),
{
    if word_length(s) >= s.len() {
        seq![s]
    } else {
        seq![s.take(word_length(s) as int)] + words_of(s.skip(word_length(s) as int + 1))
    }
}

/// Splits a text into its words.
pub fn words(s: &str) -> (r: Vec<String>)
    ensures
        texts(r@) == words_of(s@),
{
    let total: usize = s.unicode_len();
    let mut out: Vec<String> = Vec::new();
    let mut start: usize = 0;
    let mut at: usize = 0;
    proof {
        assert(s@.skip(0) =~= s@);
        assert(texts(out@) + words_of(s@) =~= words_of(s@));
    }
    for c in it: s.chars()
        invariant
            it.seq() == s@,
            total == s@.len(),
            at == it.index(),
            start <= at <= total,
            forall|i: int| start <= i < at ==> !is_break(#[trigger] s@[i]),
            words_of(s@) == texts(out@) + words_of(s@.skip(start as int)),
    {
        if breaks(c) {
            let ghost rest = s@.skip(start as int);
            let ghost before = texts(out@);
            let word: String = s.substring_char(start, at).to_owned();
            proof {
                assert forall|i: int| 0 <= i < at - start implies !is_break(#[trigger] rest[i]) by {
                    assert(rest[i] == s@[start + i]);
                }
                lemma_word_length(rest, at - start);
                assert(rest.take(at - start) =~= word@);
                assert(rest.skip(at - start + 1) =~= s@.skip(at + 1));
            }
            out.push(word);
            proof {
                let later = words_of(s@.skip(at + 1));
                assert(texts(out@) =~= before.push(word@));
                assert(before + (seq![word@] + later) =~= texts(out@) + later);
            }
            start = at + 1;
        }
        at = at + 1;
    }
    let ghost rest = s@.skip(start as int);
    let ghost before = texts(out@);
    let last: String = s.substring_char(start, total).to_owned();
    proof {
        assert forall|i: int| 0 <= i < total - start implies !is_break(#[trigger] rest[i]) by {
            assert(rest[i] == s@[start + i]);
        }
        lemma_word_length(rest, total - start);
        assert(last@ =~= rest);
    }
    out.push(last);
    assert(texts(out@) =~= before + seq![rest]);
    out
}

/// `n` is one of the words of `s`.
pub open spec fn has_word(s: Seq<char>, n: Seq<char>) -> bool {
    words_of(s).contains(n)
}

/// Whether `n` is one of the words of `s`.
pub fn contains_word(s: &str, n: &str) -> (r: bool)
    ensures
        r == has_word(s@, n@),
{
    let found: Vec<String> = words(s);
    for i in 0..found.len()
        invariant
            texts(found@) == words_of(s@),
            forall|j: int| 0 <= j < i ==> words_of(s@)[j] != n@,
    {
        assert(texts(found@)[i as int] == found@[i as int]@);
        if same(found[i].as_str(), n) {
            assert(words_of(s@)[i as int] == n@);
            return true;
        }
    }
    assert(words_of(s@).len() == found@.len());
    false
}

/// A set of names. It holds each name once, in the order in which they came.
pub struct NameSet {
    names: Vec<String>,
}

impl View for NameSet {
    type V = Set<Seq<char>>;

    closed spec fn view(&self) -> Set<Seq<char>> {
        Set::new(|n: Seq<char>| texts(self.names@).contains(n))
    }
}

impl NameSet {
    #[verifier::type_invariant]
    spec fn each_once(&self) -> bool {
        texts(self.names@).no_duplicates()
    }

    /// The set without names.
    pub fn new() -> (r: Self)
        ensures
            r@ == Set::<Seq<char>>::empty(),
    {
        let r = NameSet { names: Vec::new() };
        assert(r@ =~= Set::<Seq<char>>::empty());
        r
    }

    /// Whether the set holds `name`.
    pub fn contains(&self, name: &str) -> (r: bool)
        ensures
            r == self@.contains(name@),
    {
        for i in 0..self.names.len()
            invariant
                forall|j: int| 0 <= j < i ==> texts(self.names@)[j] != name@,
        {
            if same(self.names[i].as_str(), name) {
                assert(texts(self.names@)[i as int] == name@);
                return true;
            }
        }
        false
    }

    /// Adds `name` to the set.
    pub fn insert(&mut self, name: &str)
        ensures
            final(self)@ == old(self)@.insert(name@),
    {
        proof {
            use_type_invariant(&*self);
        }
        if !self.contains(name) {
            let ghost before = texts(self.names@);
            let mut names: Vec<String> = Vec::new();
            std::mem::swap(&mut names, &mut self.names);
            names.push(name.to_owned());
            proof {
                assert(texts(names@) =~= before.push(name@));
                assert forall|n: Seq<char>| before.push(name@).contains(n) implies before.contains(n)
                    || n == name@ by {
                    let k = choose|k: int| 0 <= k <= before.len() && before.push(name@)[k] == n;
                    if k < before.len() {
                        assert(before[k] == n);
                    }
                }
                assert forall|n: Seq<char>| before.contains(n) implies before.push(name@).contains(
                    n,
                ) by {
                    let k = choose|k: int| 0 <= k < before.len() && before[k] == n;
                    assert(before.push(name@)[k] == n);
                }
                assert(before.push(name@)[before.len() as int] == name@);
            }
            self.names = names;
        }
        assert(self@ =~= old(self)@.insert(name@));
    }
}

} // verus!
