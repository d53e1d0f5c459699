//! Splitting a command line into a program name and its arguments.
//!
//! Words are separated by whitespace.  Single quotes keep everything up to
//! the closing quote literally; double quotes do too, except that a
//! backslash still escapes the next character; outside quotes a backslash
//! escapes the next character.  Quoted and unquoted pieces that touch form
//! one word, and an empty pair of quotes is an empty word.

use vstd::prelude::*;

use crate::text::{char_is_whitespace, is_unicode_whitespace};

verus! {

/// A command line split into the program to run and its arguments.
#[derive(Debug, PartialEq, Eq)]
pub struct ParsedCommand {
    pub program: String,
    pub args: Vec<String>,
}

/// The characters of each string of a sequence of strings.
pub open spec fn strings_view(strings: Seq<String>) -> Seq<Seq<char>> {
    strings.map_values(|s: String| s@)
}

impl View for ParsedCommand {
    type V = (Seq<char>, Seq<Seq<char>>);

    open spec fn view(&self) -> (Seq<char>, Seq<Seq<char>>) {
        (self.program@, strings_view(self.args@))
    }
}

/// The message of the only error the parser reports.
pub open spec fn unterminated_message() -> Seq<char> {
    "unterminated quote or escape"@
}

/// Where the lexer stands after reading part of a line.
pub struct LexState {
    /// The words completed so far.
    pub words: Seq<Seq<char>>,
    /// The characters of the word being read.
    pub current: Seq<char>,
    /// The quote character of the open quotation, if any.
    pub quote: Option<char>,
    /// Whether the previous character was an escaping backslash.
    pub escaped: bool,
    /// Whether a word has begun (possibly an empty quoted one).
    pub started: bool,
}

/// The lexer before the first character.
pub open spec fn lex_start() -> LexState {
    LexState { words: seq![], current: seq![], quote: None, escaped: false, started: false }
}

/// Reading one more character `c`, where `whitespace` tells whether `c`
/// is a whitespace character.
pub open spec fn lex_step_with(st: LexState, c: char, whitespace: bool) -> LexState {
    if st.escaped {
        LexState { current: st.current.push(c), escaped: false, ..st }
    } else if c == '\\' && (st.quote == Some('"') || st.quote is None) {
        LexState { escaped: true, started: true, ..st }
    } else if st.quote == Some(c) {
        LexState { quote: None, ..st }
    } else if st.quote is None && (c == '\'' || c == '"') {
        LexState { quote: Some(c), started: true, ..st }
    } else if st.quote is None && whitespace {
        if st.started {
            LexState { words: st.words.push(st.current), current: seq![], started: false, ..st }
        } else {
            st
        }
    } else {
        LexState { current: st.current.push(c), started: true, ..st }
    }
}

/// Reading one more character `c`.
pub open spec fn lex_step(st: LexState, c: char) -> LexState {
    lex_step_with(st, c, is_unicode_whitespace(c))
}

/// Reading all of `s`, starting from `st`.
pub open spec fn lex_from(st: LexState, s: Seq<char>) -> LexState
    decreases s.len(),
{
    if s.len() == 0 {
        st
    } else {
        lex_step(lex_from(st, s.drop_last()), s.last())
    }
}

/// Reading all of `s` from the start.
pub open spec fn lex(s: Seq<char>) -> LexState {
    lex_from(lex_start(), s)
}

/// The words of a finished lexer state: those completed, and the one in
/// progress if it has begun.
pub open spec fn final_words(st: LexState) -> Seq<Seq<char>> {
    if st.started {
        st.words.push(st.current)
    } else {
        st.words
    }
}

/// The result of a lexer that has read a whole line: an error when a
/// quotation or an escape is left open, no command when there is no word,
/// and otherwise the first word as the program and the rest as its
/// arguments.
pub open spec fn finish_spec(st: LexState) -> Result<Option<(Seq<char>, Seq<Seq<char>>)>, Seq<char>> {
    if st.escaped || st.quote is Some {
        Err(unterminated_message())
    } else {
        let words = final_words(st);
        if words.len() == 0 {
            Ok(None)
        } else {
            Ok(Some((words[0], words.drop_first())))
        }
    }
}

/// What parsing the line `s` yields.
pub open spec fn parse_spec(s: Seq<char>) -> Result<Option<(Seq<char>, Seq<Seq<char>>)>, Seq<char>> {
    finish_spec(lex(s))
}

/// A character with no special meaning to the lexer.
pub open spec fn is_plain_char(c: char) -> bool {
    !is_unicode_whitespace(c) && c != '\\' && c != '\'' && c != '"'
}

/// A non-empty word made of plain characters only.
pub open spec fn is_plain_word(w: Seq<char>) -> bool {
    w.len() > 0 && forall|i: int| 0 <= i < w.len() ==> is_plain_char(#[trigger] w[i])
}

/// The words written one after the other, with `sep` between neighbours.
pub open spec fn join_words(words: Seq<Seq<char>>, sep: char) -> Seq<char>
    decreases words.len(),
{
    if words.len() == 0 {
        seq![]
    } else if words.len() == 1 {
        words[0]
    } else {
        join_words(words.drop_last(), sep).push(sep) + words.last()
    }
}

/// Reading `a` and then `b` is reading their concatenation.
pub proof fn lemma_lex_from_append(st: LexState, a: Seq<char>, b: Seq<char>)
    ensures
        lex_from(st, a + b) == lex_from(lex_from(st, a), b),
    decreases b.len(),
{
    if b.len() == 0 {
        assert(a + b =~= a);
    } else {
        assert((a + b).drop_last() =~= a + b.drop_last());
        lemma_lex_from_append(st, a, b.drop_last());
    }
}

/// Reading plain characters outside quotes only extends the current word.
proof fn lemma_lex_plain(st: LexState, w: Seq<char>)
    requires
        !st.escaped,
        st.quote is None,
        forall|i: int| 0 <= i < w.len() ==> is_plain_char(#[trigger] w[i]),
    ensures
        lex_from(st, w) == (LexState {
            current: st.current + w,
            started: st.started || w.len() > 0,
            ..st
        }),
    decreases w.len(),
{
    if w.len() == 0 {
        assert(st.current + w =~= st.current);
    } else {
        let init = w.drop_last();
        assert forall|i: int| 0 <= i < init.len() implies is_plain_char(#[trigger] init[i]) by {
            assert(init[i] == w[i]);
        }
        lemma_lex_plain(st, init);
        assert(is_plain_char(w[w.len() - 1]));
        assert((st.current + init).push(w.last()) =~= st.current + w);
    }
}

/// The lexer state after reading plain words joined by a separator.
proof fn lemma_lex_joined(words: Seq<Seq<char>>, sep: char)
    requires
        words.len() > 0,
        forall|i: int| 0 <= i < words.len() ==> is_plain_word(#[trigger] words[i]),
        is_unicode_whitespace(sep),
    ensures
        lex(join_words(words, sep)) == (LexState {
            words: words.drop_last(),
            current: words.last(),
            quote: None,
            escaped: false,
            started: true,
        }),
    decreases words.len(),
{
    assert(is_plain_word(words[words.len() - 1]));
    let last = words.last();
    if words.len() == 1 {
        lemma_lex_plain(lex_start(), last);
        assert(seq![] + last =~= last);
        assert(words.drop_last() =~= seq![]);
    } else {
        let init = words.drop_last();
        assert forall|i: int| 0 <= i < init.len() implies is_plain_word(#[trigger] init[i]) by {
            assert(init[i] == words[i]);
        }
        lemma_lex_joined(init, sep);
        let j = join_words(init, sep);
        assert(j.push(sep).drop_last() =~= j);
        let mid = lex(j.push(sep));
        assert(init.drop_last().push(init.last()) =~= init);
        lemma_lex_from_append(lex_start(), j.push(sep), last);
        lemma_lex_plain(mid, last);
        assert(seq![] + last =~= last);
    }
}

/// Law: plain words separated by a whitespace character parse back to those
/// very words, the first one as the program.
pub proof fn law_plain_words_parse_back(words: Seq<Seq<char>>, sep: char)
    requires
        words.len() > 0,
        forall|i: int| 0 <= i < words.len() ==> is_plain_word(#[trigger] words[i]),
        is_unicode_whitespace(sep),
    ensures
        parse_spec(join_words(words, sep)) == Ok::<_, Seq<char>>(
            Some((words[0], words.drop_first())),
        ),
{
    lemma_lex_joined(words, sep);
    assert(words.drop_last().push(words.last()) =~= words);
}

/// Law: a whitespace character in front of a line changes nothing.
pub proof fn law_leading_separator_ignored(sep: char, s: Seq<char>)
    requires
        is_unicode_whitespace(sep),
    ensures
        parse_spec(seq![sep] + s) == parse_spec(s),
{
    let one = seq![sep];
    assert(one.drop_last() =~= seq![]);
    assert(lex_from(lex_start(), one.drop_last()) == lex_start());
    assert(one.last() == sep);
    assert(lex(one) == lex_start());
    lemma_lex_from_append(lex_start(), one, s);
}

/// Law: a whitespace character at the end of a line that parses changes nothing.
pub proof fn law_trailing_separator_ignored(s: Seq<char>, sep: char)
    requires
        parse_spec(s) is Ok,
        is_unicode_whitespace(sep),
    ensures
        parse_spec(s.push(sep)) == parse_spec(s),
{
    assert(s.push(sep).drop_last() =~= s);
}


/// The pieces of `s` between whitespace characters, empty pieces included:
/// one more piece than there are whitespace characters.
pub open spec fn whitespace_fields(s: Seq<char>) -> Seq<Seq<char>>
    decreases s.len(),
{
    if s.len() == 0 {
        seq![seq![]]
    } else {
        let fields = whitespace_fields(s.drop_last());
        if is_unicode_whitespace(s.last()) {
            fields.push(seq![])
        } else {
            fields.update(fields.len() - 1, fields.last().push(s.last()))
        }
    }
}

/// The non-empty pieces among `pieces`, in order.
pub open spec fn non_empty(pieces: Seq<Seq<char>>) -> Seq<Seq<char>>
    decreases pieces.len(),
{
    if pieces.len() == 0 {
        seq![]
    } else if pieces.last().len() > 0 {
        non_empty(pieces.drop_last()).push(pieces.last())
    } else {
        non_empty(pieces.drop_last())
    }
}

/// The words of `s` when only whitespace separates them, as
/// `str::split_whitespace` gives them.
pub open spec fn split_whitespace_spec(s: Seq<char>) -> Seq<Seq<char>> {
    non_empty(whitespace_fields(s))
}

/// Whether `s` holds no quote and no backslash.
pub open spec fn has_no_quoting(s: Seq<char>) -> bool {
    forall|i: int| 0 <= i < s.len() ==> #[trigger] s[i] != '\\' && s[i] != '\'' && s[i] != '"'
}

/// Without quotes and backslashes the lexer just splits on whitespace.
proof fn lemma_lex_unquoted(s: Seq<char>)
    requires
        has_no_quoting(s),
    ensures
        whitespace_fields(s).len() > 0,
        lex(s) == (LexState {
            words: non_empty(whitespace_fields(s).drop_last()),
            current: whitespace_fields(s).last(),
            quote: None,
            escaped: false,
            started: whitespace_fields(s).last().len() > 0,
        }),
    decreases s.len(),
{
    if s.len() == 0 {
        assert(seq![seq![]].drop_last() =~= Seq::<Seq<char>>::empty());
    } else {
        let init = s.drop_last();
        assert forall|i: int| 0 <= i < init.len() implies #[trigger] init[i] != '\\' && init[i]
            != '\'' && init[i] != '"' by {
            assert(init[i] == s[i]);
        }
        lemma_lex_unquoted(init);
        let c = s.last();
        assert(s[s.len() - 1] == c);
        let fields = whitespace_fields(init);
        let st = lex(init);
        assert(lex(s) == lex_step(st, c));
        assert(c != '\\' && c != '\'' && c != '"');
        if is_unicode_whitespace(c) {
            assert(fields.push(seq![]).drop_last() =~= fields);
            if fields.last().len() > 0 {
                assert(fields.drop_last().push(fields.last()) =~= fields);
            } else {
                assert(fields.last() =~= seq![]);
                assert(non_empty(fields) == non_empty(fields.drop_last()));
            }
        } else {
            let updated = fields.update(fields.len() - 1, fields.last().push(c));
            assert(updated.drop_last() =~= fields.drop_last());
        }
    }
}

/// Law: a line without quotes or backslashes parses as its
/// whitespace-separated words, the first one as the program.
pub proof fn law_unquoted_line_splits_on_whitespace(s: Seq<char>)
    requires
        has_no_quoting(s),
    ensures
        parse_spec(s) == ({
            let words = split_whitespace_spec(s);
            if words.len() == 0 {
                Ok::<_, Seq<char>>(None)
            } else {
                Ok(Some((words[0], words.drop_first())))
            }
        }),
{
    lemma_lex_unquoted(s);
    let fields = whitespace_fields(s);
    assert(fields.drop_last().push(fields.last()) =~= fields);
    assert(final_words(lex(s)) == split_whitespace_spec(s));
}


/// `w` between single quotes.
pub open spec fn single_quoted(w: Seq<char>) -> Seq<char> {
    seq!['\''] + w + seq!['\'']
}

/// Whether `w` holds no single quote.
pub open spec fn has_no_single_quote(w: Seq<char>) -> bool {
    forall|i: int| 0 <= i < w.len() ==> #[trigger] w[i] != '\''
}

/// Inside single quotes every character but the closing quote is kept as
/// it is.
proof fn lemma_lex_inside_single_quotes(st: LexState, w: Seq<char>)
    requires
        !st.escaped,
        st.quote == Some('\''),
        st.started,
        has_no_single_quote(w),
    ensures
        lex_from(st, w) == (LexState { current: st.current + w, ..st }),
    decreases w.len(),
{
    if w.len() == 0 {
        assert(st.current + w =~= st.current);
    } else {
        let init = w.drop_last();
        assert forall|i: int| 0 <= i < init.len() implies #[trigger] init[i] != '\'' by {
            assert(init[i] == w[i]);
        }
        lemma_lex_inside_single_quotes(st, init);
        assert(w[w.len() - 1] != '\'');
        assert((st.current + init).push(w.last()) =~= st.current + w);
    }
}

/// Reading a single-quoted word outside quotes adds its content to the
/// current word.
proof fn lemma_lex_single_quoted(st: LexState, w: Seq<char>)
    requires
        !st.escaped,
        st.quote is None,
        has_no_single_quote(w),
    ensures
        lex_from(st, single_quoted(w)) == (LexState {
            current: st.current + w,
            started: true,
            ..st
        }),
{
    let open_quote: Seq<char> = seq!['\''];
    assert(open_quote.drop_last() =~= seq![]);
    assert(open_quote.last() == '\'');
    assert(lex_from(st, open_quote.drop_last()) == st);
    let opened = lex_from(st, open_quote);
    assert(opened == (LexState { quote: Some('\''), started: true, ..st }));
    lemma_lex_from_append(st, open_quote, w);
    lemma_lex_inside_single_quotes(opened, w);
    lemma_lex_from_append(st, open_quote + w, seq!['\'']);
    let inside = lex_from(st, open_quote + w);
    let closing: Seq<char> = seq!['\''];
    assert(closing.drop_last() =~= seq![]);
    assert(closing.last() == '\'');
    assert(lex_from(inside, closing.drop_last()) == inside);
    assert(lex_from(inside, closing) == lex_step(inside, '\''));
}

/// The lexer state after reading single-quoted words joined by spaces.
proof fn lemma_lex_single_quoted_joined(words: Seq<Seq<char>>)
    requires
        words.len() > 0,
        forall|i: int| 0 <= i < words.len() ==> has_no_single_quote(#[trigger] words[i]),
    ensures
        lex(join_words(words.map_values(|w: Seq<char>| single_quoted(w)), ' ')) == (LexState {
            words: words.drop_last(),
            current: words.last(),
            quote: None,
            escaped: false,
            started: true,
        }),
    decreases words.len(),
{
    let quoted = words.map_values(|w: Seq<char>| single_quoted(w));
    let last = words.last();
    assert(has_no_single_quote(words[words.len() - 1]));
    assert(quoted.last() == single_quoted(last));
    if words.len() == 1 {
        lemma_lex_single_quoted(lex_start(), last);
        assert(seq![] + last =~= last);
        assert(words.drop_last() =~= seq![]);
    } else {
        let init = words.drop_last();
        assert forall|i: int| 0 <= i < init.len() implies has_no_single_quote(
            #[trigger] init[i],
        ) by {
            assert(init[i] == words[i]);
        }
        lemma_lex_single_quoted_joined(init);
        assert(quoted.drop_last() =~= init.map_values(|w: Seq<char>| single_quoted(w)));
        let j = join_words(quoted.drop_last(), ' ');
        assert(j.push(' ').drop_last() =~= j);
        assert(is_unicode_whitespace(' '));
        let mid = lex(j.push(' '));
        assert(init.drop_last().push(init.last()) =~= init);
        lemma_lex_from_append(lex_start(), j.push(' '), single_quoted(last));
        lemma_lex_single_quoted(mid, last);
        assert(seq![] + last =~= last);
    }
}

/// Law: words without single quotes, each put between single quotes and
/// joined by spaces, parse back unchanged, empty words and words holding
/// whitespace, double quotes or backslashes included.
pub proof fn law_single_quoted_words_parse_back(words: Seq<Seq<char>>)
    requires
        words.len() > 0,
        forall|i: int| 0 <= i < words.len() ==> has_no_single_quote(#[trigger] words[i]),
    ensures
        parse_spec(join_words(words.map_values(|w: Seq<char>| single_quoted(w)), ' '))
            == Ok::<_, Seq<char>>(Some((words[0], words.drop_first()))),
{
    lemma_lex_single_quoted_joined(words);
    assert(words.drop_last().push(words.last()) =~= words);
}


/// `w` between double quotes.
pub open spec fn double_quoted(w: Seq<char>) -> Seq<char> {
    seq!['"'] + w + seq!['"']
}

/// Whether `w` holds neither a double quote nor a backslash, the two
/// characters that keep a meaning inside double quotes.
pub open spec fn is_double_quotable(w: Seq<char>) -> bool {
    forall|i: int| 0 <= i < w.len() ==> #[trigger] w[i] != '"' && w[i] != '\\'
}

/// Inside double quotes every character but a backslash and the closing
/// quote is kept as it is.
proof fn lemma_lex_inside_double_quotes(st: LexState, w: Seq<char>)
    requires
        !st.escaped,
        st.quote == Some('"'),
        st.started,
        is_double_quotable(w),
    ensures
        lex_from(st, w) == (LexState { current: st.current + w, ..st }),
    decreases w.len(),
{
    if w.len() == 0 {
        assert(st.current + w =~= st.current);
    } else {
        let init = w.drop_last();
        assert forall|i: int| 0 <= i < init.len() implies #[trigger] init[i] != '"' && init[i]
            != '\\' by {
            assert(init[i] == w[i]);
        }
        lemma_lex_inside_double_quotes(st, init);
        assert(w[w.len() - 1] != '"' && w[w.len() - 1] != '\\');
        assert((st.current + init).push(w.last()) =~= st.current + w);
    }
}

/// Reading a double-quoted word outside quotes adds its content to the
/// current word.
proof fn lemma_lex_double_quoted(st: LexState, w: Seq<char>)
    requires
        !st.escaped,
        st.quote is None,
        is_double_quotable(w),
    ensures
        lex_from(st, double_quoted(w)) == (LexState {
            current: st.current + w,
            started: true,
            ..st
        }),
{
    let open_quote: Seq<char> = seq!['"'];
    assert(open_quote.drop_last() =~= seq![]);
    assert(open_quote.last() == '"');
    assert(lex_from(st, open_quote.drop_last()) == st);
    let opened = lex_from(st, open_quote);
    assert(opened == (LexState { quote: Some('"'), started: true, ..st }));
    lemma_lex_from_append(st, open_quote, w);
    lemma_lex_inside_double_quotes(opened, w);
    lemma_lex_from_append(st, open_quote + w, seq!['"']);
    let inside = lex_from(st, open_quote + w);
    let closing: Seq<char> = seq!['"'];
    assert(closing.drop_last() =~= seq![]);
    assert(closing.last() == '"');
    assert(lex_from(inside, closing.drop_last()) == inside);
    assert(lex_from(inside, closing) == lex_step(inside, '"'));
}

/// The lexer state after reading double-quoted words joined by spaces.
proof fn lemma_lex_double_quoted_joined(words: Seq<Seq<char>>)
    requires
        words.len() > 0,
        forall|i: int| 0 <= i < words.len() ==> is_double_quotable(#[trigger] words[i]),
    ensures
        lex(join_words(words.map_values(|w: Seq<char>| double_quoted(w)), ' ')) == (LexState {
            words: words.drop_last(),
            current: words.last(),
            quote: None,
            escaped: false,
            started: true,
        }),
    decreases words.len(),
{
    let quoted = words.map_values(|w: Seq<char>| double_quoted(w));
    let last = words.last();
    assert(is_double_quotable(words[words.len() - 1]));
    assert(quoted.last() == double_quoted(last));
    if words.len() == 1 {
        lemma_lex_double_quoted(lex_start(), last);
        assert(seq![] + last =~= last);
        assert(words.drop_last() =~= seq![]);
    } else {
        let init = words.drop_last();
        assert forall|i: int| 0 <= i < init.len() implies is_double_quotable(
            #[trigger] init[i],
        ) by {
            assert(init[i] == words[i]);
        }
        lemma_lex_double_quoted_joined(init);
        assert(quoted.drop_last() =~= init.map_values(|w: Seq<char>| double_quoted(w)));
        let j = join_words(quoted.drop_last(), ' ');
        assert(j.push(' ').drop_last() =~= j);
        assert(is_unicode_whitespace(' '));
        let mid = lex(j.push(' '));
        assert(init.drop_last().push(init.last()) =~= init);
        lemma_lex_from_append(lex_start(), j.push(' '), double_quoted(last));
        lemma_lex_double_quoted(mid, last);
        assert(seq![] + last =~= last);
    }
}

/// Law: words without double quotes and backslashes, each put between
/// double quotes and joined by spaces, parse back unchanged: inside double
/// quotes whitespace and single quotes are ordinary characters.
pub proof fn law_double_quoted_words_parse_back(words: Seq<Seq<char>>)
    requires
        words.len() > 0,
        forall|i: int| 0 <= i < words.len() ==> is_double_quotable(#[trigger] words[i]),
    ensures
        parse_spec(join_words(words.map_values(|w: Seq<char>| double_quoted(w)), ' '))
            == Ok::<_, Seq<char>>(Some((words[0], words.drop_first()))),
{
    lemma_lex_double_quoted_joined(words);
    assert(words.drop_last().push(words.last()) =~= words);
}

/// Law: a plain program name followed by a space and one double-quoted
/// argument without double quotes and backslashes parses as that program
/// with that argument, whatever else (spaces, single quotes) it holds.
pub proof fn law_double_quoted_argument(program: Seq<char>, w: Seq<char>)
    requires
        is_plain_word(program),
        is_double_quotable(w),
    ensures
        parse_spec(program.push(' ') + double_quoted(w)) == Ok::<_, Seq<char>>(
            Some((program, seq![w])),
        ),
{
    lemma_lex_plain(lex_start(), program);
    assert(seq![] + program =~= program);
    assert(program.push(' ').drop_last() =~= program);
    assert(is_unicode_whitespace(' '));
    let mid = lex(program.push(' '));
    lemma_lex_from_append(lex_start(), program.push(' '), double_quoted(w));
    lemma_lex_double_quoted(mid, w);
    assert(seq![] + w =~= w);
    assert(final_words(lex(program.push(' ') + double_quoted(w))) =~= seq![program, w]);
    assert(seq![program, w].drop_first() =~= seq![w]);
}

/// The value of a parse result, with every string taken by its characters.
pub open spec fn parse_result_view(r: Result<Option<ParsedCommand>, &'static str>) -> Result<
    Option<(Seq<char>, Seq<Seq<char>>)>,
    Seq<char>,
> {
    match r {
        Ok(Some(c)) => Ok(Some(c@)),
        Ok(None) => Ok(None),
        Err(e) => Err(e@),
    }
}

/// A lexer part-way through a line.
pub struct Lexer {
    words: Vec<String>,
    current: String,
    quote: Option<char>,
    escaped: bool,
    started: bool,
}

impl View for Lexer {
    type V = LexState;

    closed spec fn view(&self) -> LexState {
        LexState {
            words: strings_view(self.words@),
            current: self.current@,
            quote: self.quote,
            escaped: self.escaped,
            started: self.started,
        }
    }
}

impl Lexer {
    /// A lexer at the start of a line.
    pub fn new() -> (lexer: Lexer)
        ensures
            lexer@ == lex_start(),
    {
        let lexer = Lexer {
            words: Vec::new(),
            current: String::new(),
            quote: None,
            escaped: false,
            started: false,
        };
        assert(lexer@.words =~= seq![]);
        lexer
    }

    /// Reads the character `c`; `whitespace` tells whether `c` is a
    /// whitespace character.
    pub fn feed(&mut self, c: char, whitespace: bool)
        ensures
            final(self)@ == lex_step_with(old(self)@, c, whitespace),
    {
        if self.escaped {
            self.current.push(c);
            self.escaped = false;
        } else if c == '\\' && (self.quote == Some('"') || self.quote.is_none()) {
            self.escaped = true;
            self.started = true;
        } else if self.quote == Some(c) {
            self.quote = None;
        } else if self.quote.is_none() && (c == '\'' || c == '"') {
            self.quote = Some(c);
            self.started = true;
        } else if self.quote.is_none() && whitespace {
            if self.started {
                let mut word = String::new();
                std::mem::swap(&mut word, &mut self.current);
                let ghost before = self.words@;
                self.words.push(word);
                assert(strings_view(self.words@) =~= strings_view(before).push(word@));
                self.started = false;
            }
        } else {
            self.current.push(c);
            self.started = true;
        }
    }

    /// Ends the line and returns what was read.
    pub fn finish(self) -> (r: Result<Option<ParsedCommand>, &'static str>)
        ensures
            parse_result_view(r) == finish_spec(self@),
    {
        let Lexer { mut words, current, quote, escaped, started } = self;
        if escaped || quote.is_some() {
            return Err("unterminated quote or escape");
        }
        if started {
            let ghost before = words@;
            words.push(current);
            assert(strings_view(words@) =~= strings_view(before).push(current@));
        }
        if words.len() == 0 {
            return Ok(None);
        }
        let program = words[0].clone();
        let mut args: Vec<String> = Vec::new();
        let mut i: usize = 1;
        while i < words.len()
            invariant
                1 <= i <= words.len(),
                strings_view(args@) =~= strings_view(words@).subrange(1, i as int),
            decreases words.len() - i,
        {
            let ghost before = args@;
            args.push(words[i].clone());
            assert(strings_view(args@) =~= strings_view(before).push(words@[i as int]@));
            i = i + 1;
        }
        let command = ParsedCommand { program, args };
        assert(command@.1 =~= strings_view(words@).drop_first());
        Ok(Some(command))
    }
}

/// Splits `line` into a program and its arguments.
///
/// Returns `Ok(None)` for a line without words and
/// `Err("unterminated quote or escape")` when the line ends inside a
/// quotation or right after an escaping backslash.
pub fn parse_command(line: &str) -> (r: Result<Option<ParsedCommand>, &'static str>)
    ensures
        parse_result_view(r) == parse_spec(line@),
{
    let mut lexer = Lexer::new();
    for character in it: line.chars()
        invariant
            it.seq() == line@,
            lexer@ == lex(line@.take(it.index() as int)),
    {
        assert(line@.take(it.index() + 1).drop_last() =~= line@.take(it.index() as int));
        let whitespace = char_is_whitespace(character);
        lexer.feed(character, whitespace);
    }
    assert(line@.take(line@.len() as int) =~= line@);
    lexer.finish()
}

} // verus!
