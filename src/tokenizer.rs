//! Splitting an input line into argument tokens under shell-style quoting.
use vstd::prelude::*;

verus! {

/// Where the scanner stands inside the quoting grammar.
#[derive(PartialEq, Eq, Structural, Clone, Copy, Debug)]
pub enum QuoteState {
    Normal,
    Escaped,
    SingleQuoted,
    DoubleQuoted,
    DoubleQuotedEscaped,
}

/// The whole state of a scan after some prefix of a line.
pub ghost struct Scan {
    pub mode: QuoteState,
    pub pending: Seq<char>,
    pub tokens: Seq<Seq<char>>,
}

pub open spec fn initial_scan() -> Scan {
    Scan { mode: QuoteState::Normal, pending: Seq::empty(), tokens: Seq::empty() }
}

/// Characters that a backslash escapes inside double quotes.
pub open spec fn escapable_in_double(c: char) -> bool {
    c == '"' || c == '\\' || c == '$' || c == '`'
}

/// One transition of the quoting automaton on character `c`.
pub open spec fn step(s: Scan, c: char) -> Scan {
    match s.mode {
        QuoteState::Normal => {
            if c == '\\' {
                Scan { mode: QuoteState::Escaped, ..s }
            } else if c == '\'' {
                Scan { mode: QuoteState::SingleQuoted, ..s }
            } else if c == '"' {
                Scan { mode: QuoteState::DoubleQuoted, ..s }
            } else if c == ' ' {
                if s.pending.len() > 0 {
                    Scan { pending: Seq::empty(), tokens: s.tokens.push(s.pending), ..s }
                } else {
                    s
                }
            } else {
                Scan { pending: s.pending.push(c), ..s }
            }
        },
        QuoteState::Escaped => Scan { mode: QuoteState::Normal, pending: s.pending.push(c), ..s },
        QuoteState::SingleQuoted => {
            if c == '\'' {
                Scan { mode: QuoteState::Normal, ..s }
            } else {
                Scan { pending: s.pending.push(c), ..s }
            }
        },
        QuoteState::DoubleQuoted => {
            if c == '"' {
                Scan { mode: QuoteState::Normal, ..s }
            } else if c == '\\' {
                Scan { mode: QuoteState::DoubleQuotedEscaped, ..s }
            } else {
                Scan { pending: s.pending.push(c), ..s }
            }
        },
        QuoteState::DoubleQuotedEscaped => {
            if escapable_in_double(c) {
                Scan { mode: QuoteState::DoubleQuoted, pending: s.pending.push(c), ..s }
            } else {
                Scan {
                    mode: QuoteState::DoubleQuoted,
                    pending: s.pending.push('\\').push(c),
                    ..s
                }
            }
        },
    }
}

/// The scan state after reading all of `line`, left to right.
pub open spec fn scan(line: Seq<char>) -> Scan
    decreases line.len(),
{
    if line.len() == 0 {
        initial_scan()
    } else {
        step(scan(line.drop_last()), line.last())
    }
}

/// End of input: a non-empty pending token is flushed; open quotes close silently.
pub open spec fn finish(s: Scan) -> Seq<Seq<char>> {
    if s.pending.len() > 0 {
        s.tokens.push(s.pending)
    } else {
        s.tokens
    }
}

/// The tokens of a line.
pub open spec fn tokens_of(line: Seq<char>) -> Seq<Seq<char>> {
    finish(scan(line))
}

/// A character with a meaning in the quoting grammar.
pub open spec fn is_quoting_char(c: char) -> bool {
    c == '\\' || c == '\'' || c == '"'
}

/// The fields of `line` between single spaces, empty ones included.
pub open spec fn space_fields(line: Seq<char>) -> Seq<Seq<char>>
    decreases line.len(),
{
    if line.len() == 0 {
        seq![Seq::empty()]
    } else {
        let f = space_fields(line.drop_last());
        if line.last() == ' ' {
            f.push(Seq::empty())
        } else {
            f.update(f.len() - 1, f.last().push(line.last()))
        }
    }
}

/// Keeps the words that hold at least one character.
pub open spec fn nonempty_word() -> spec_fn(Seq<char>) -> bool {
    |w: Seq<char>| w.len() > 0
}

/// `line` split on runs of spaces, with no empty words.
pub open spec fn words(line: Seq<char>) -> Seq<Seq<char>> {
    space_fields(line).filter(nonempty_word())
}

proof fn lemma_space_fields_nonempty(line: Seq<char>)
    ensures
        space_fields(line).len() >= 1,
    decreases line.len(),
{
    if line.len() > 0 {
        lemma_space_fields_nonempty(line.drop_last());
    }
}

proof fn lemma_scan_plain(line: Seq<char>)
    requires
        forall|i: int| 0 <= i < line.len() ==> !is_quoting_char(#[trigger] line[i]),
    ensures
        scan(line).mode == QuoteState::Normal,
        scan(line).pending == space_fields(line).last(),
        scan(line).tokens == space_fields(line).drop_last().filter(nonempty_word()),
    decreases line.len(),
{
    reveal(Seq::filter);
    if line.len() > 0 {
        let prev = line.drop_last();
        assert forall|i: int| 0 <= i < prev.len() implies !is_quoting_char(#[trigger] prev[i]) by {
            assert(prev[i] == line[i]);
        }
        lemma_scan_plain(prev);
        lemma_space_fields_nonempty(prev);
        assert(!is_quoting_char(line[line.len() - 1]));
        let f = space_fields(prev);
        if line.last() == ' ' {
            assert(f.push(Seq::empty()).drop_last() == f);
            assert(f == f.drop_last().push(f.last()));
        } else {
            let g = f.update(f.len() - 1, f.last().push(line.last()));
            assert(g.drop_last() == f.drop_last());
        }
    }
}

/// On a line without backslashes or quotes, tokenizing is splitting on runs
/// of spaces and dropping the empty fields.
pub proof fn lemma_plain_line_splits_on_spaces(line: Seq<char>)
    requires
        forall|i: int| 0 <= i < line.len() ==> !is_quoting_char(#[trigger] line[i]),
    ensures
        tokens_of(line) == words(line),
{
    reveal(Seq::filter);
    lemma_scan_plain(line);
    lemma_space_fields_nonempty(line);
    let f = space_fields(line);
    assert(f == f.drop_last().push(f.last()));
}

/// No character of `w` is a space.
pub open spec fn space_free(w: Seq<char>) -> bool {
    forall|j: int| 0 <= j < w.len() ==> w[j] != ' '
}

proof fn lemma_fields_space_free(line: Seq<char>)
    ensures
        forall|i: int|
            0 <= i < space_fields(line).len() ==> space_free(#[trigger] space_fields(line)[i]),
    decreases line.len(),
{
    if line.len() > 0 {
        let prev = line.drop_last();
        lemma_fields_space_free(prev);
        lemma_space_fields_nonempty(prev);
        let f = space_fields(prev);
        if line.last() != ' ' {
            let g = f.update(f.len() - 1, f.last().push(line.last()));
            assert forall|i: int| 0 <= i < g.len() implies space_free(#[trigger] g[i]) by {
                if i == f.len() - 1 {
                    assert(space_free(f[i]));
                }
            }
        }
    }
}

proof fn lemma_filter_nonempty_space_free(s: Seq<Seq<char>>)
    requires
        forall|i: int| 0 <= i < s.len() ==> space_free(#[trigger] s[i]),
    ensures
        forall|i: int|
            0 <= i < s.filter(nonempty_word()).len() ==> {
                let w = #[trigger] s.filter(nonempty_word())[i];
                w.len() > 0 && space_free(w)
            },
    decreases s.len(),
{
    reveal(Seq::filter);
    if s.len() > 0 {
        let prev = s.drop_last();
        assert forall|i: int| 0 <= i < prev.len() implies space_free(#[trigger] prev[i]) by {
            assert(prev[i] == s[i]);
        }
        lemma_filter_nonempty_space_free(prev);
        assert(space_free(s[s.len() - 1]));
        let f = s.filter(nonempty_word());
        let fp = prev.filter(nonempty_word());
        assert forall|i: int| 0 <= i < f.len() implies (#[trigger] f[i]).len() > 0 && space_free(
            f[i],
        ) by {
            if i < fp.len() {
                assert(f[i] == fp[i]);
            }
        }
    }
}

/// Every word of a line is non-empty and holds no space.
pub proof fn lemma_words_are_clean(line: Seq<char>)
    ensures
        forall|i: int|
            0 <= i < words(line).len() ==> (#[trigger] words(line)[i]).len() > 0 && space_free(
                words(line)[i],
            ),
{
    lemma_fields_space_free(line);
    lemma_filter_nonempty_space_free(space_fields(line));
}

pub open spec fn views(v: Seq<String>) -> Seq<Seq<char>> {
    v.map_values(|t: String| t@)
}

/// Relies on String::push: the character is appended at the end.
#[verifier::external_body]
fn push_char(s: &mut String, c: char)
    ensures
        final(s)@ == old(s)@.push(c),
{
    s.push(c)
}

/// Splits `line` into tokens, honouring backslash escapes and single and
/// double quotes. Unterminated quotes or escapes are closed at the end.
pub fn tokenize(line: &str) -> (r: Vec<String>)
    ensures
        views(r@) == tokens_of(line@),
{
    let mut mode = QuoteState::Normal;
    let mut pending = String::new();
    let mut tokens: Vec<String> = Vec::new();
    for c in it: line.chars()
        invariant
            it.seq() == line@,
            ({
                let s = scan(line@.take(it.index() as int));
                mode == s.mode && pending@ == s.pending && views(tokens@) == s.tokens
            }),
    {
        let ghost before = line@.take(it.index() as int);
        proof {
            assert(line@.take(it.index() + 1).drop_last() == before);
        }
        match mode {
            QuoteState::Normal => {
                if c == '\\' {
                    mode = QuoteState::Escaped;
                } else if c == '\'' {
                    mode = QuoteState::SingleQuoted;
                } else if c == '"' {
                    mode = QuoteState::DoubleQuoted;
                } else if c == ' ' {
                    if !pending.as_str().is_empty() {
                        let ghost old_tokens = tokens@;
                        tokens.push(pending);
                        pending = String::new();
                        proof {
                            assert(views(tokens@) == views(old_tokens).push(tokens@.last()@));
                        }
                    }
                } else {
                    push_char(&mut pending, c);
                }
            },
            QuoteState::Escaped => {
                push_char(&mut pending, c);
                mode = QuoteState::Normal;
            },
            QuoteState::SingleQuoted => {
                if c == '\'' {
                    mode = QuoteState::Normal;
                } else {
                    push_char(&mut pending, c);
                }
            },
            QuoteState::DoubleQuoted => {
                if c == '"' {
                    mode = QuoteState::Normal;
                } else if c == '\\' {
                    mode = QuoteState::DoubleQuotedEscaped;
                } else {
                    push_char(&mut pending, c);
                }
            },
            QuoteState::DoubleQuotedEscaped => {
                if !(c == '"' || c == '\\' || c == '$' || c == '`') {
                    push_char(&mut pending, '\\');
                }
                push_char(&mut pending, c);
                mode = QuoteState::DoubleQuoted;
            },
        }
    }
    proof {
        assert(line@.take(line@.len() as int) == line@);
    }
    if !pending.as_str().is_empty() {
        let ghost old_tokens = tokens@;
        tokens.push(pending);
        proof {
            assert(views(tokens@) == views(old_tokens).push(tokens@.last()@));
        }
    }
    tokens
}

} // verus!
