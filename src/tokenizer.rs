//! The scanner: a three-mode state machine that turns text into tokens, each
//! tagged with the slice of input it came from and its line and column.

use vstd::prelude::*;
use crate::text::{
    chars_of, char_in_class, column_at, in_class, is_markup, lemma_position_step, lemma_run_end,
    line_at, only_markup, run_end, CharClass,
};

verus! {

/// A zero-indexed line and column in the input.
#[derive(Clone, Copy, Debug, PartialEq, Eq, Structural)]
pub struct Position {
    pub line: usize,
    pub column: usize,
}

impl Position {
    /// This is the position just before index `n` of `s`.
    pub open spec fn sits_at(self, s: Seq<char>, n: int) -> bool {
        self.line == line_at(s, n) && self.column == column_at(s, n)
    }
}

/// A region of the input: where it starts and ends, and the text it covers.
#[derive(Clone, Copy, Debug)]
pub struct Span<'a> {
    pub start: Position,
    pub end: Position,
    pub source: &'a str,
}

impl<'a> Span<'a> {
    /// This span is the region from index `a` to index `b` of `s`.
    pub open spec fn covers(self, s: Seq<char>, a: int, b: int) -> bool {
        &&& self.source@ == s.subrange(a, b)
        &&& self.start.sits_at(s, a)
        &&& self.end.sits_at(s, b)
    }

    /// An empty span at `pos`, for a construct that is expected but absent.
    fn point(pos: Position) -> (r: Span<'a>)
        ensures
            r.start == pos,
            r.end == pos,
            r.source@ == Seq::<char>::empty(),
    {
        proof {
            reveal_strlit("");
        }
        Span { start: pos, end: pos, source: "" }
    }

    pub fn source(&self) -> (r: &'a str)
        ensures
            r == self.source,
    {
        self.source
    }

    pub fn start(&self) -> (r: Position)
        ensures
            r == self.start,
    {
        self.start
    }

    pub fn end(&self) -> (r: Position)
        ensures
            r == self.end,
    {
        self.end
    }
}

/// The kind of a token, with the text it carries.
#[derive(Debug, PartialEq)]
pub enum TokenKind<'a> {
    TagName { name: &'a str },
    OpeningTagEnd,
    AttributeName { name: &'a str },
    AttributeValue { value: &'a str },
    Text { text: &'a str },
    TagEnd { name: &'a str },
}

/// The kinds of token, without their text.
pub enum TokenClass {
    TagName,
    OpeningTagEnd,
    AttributeName,
    AttributeValue,
    Text,
    TagEnd,
}

impl<'a> TokenKind<'a> {
    pub open spec fn class(self) -> TokenClass {
        match self {
            TokenKind::TagName { .. } => TokenClass::TagName,
            TokenKind::OpeningTagEnd => TokenClass::OpeningTagEnd,
            TokenKind::AttributeName { .. } => TokenClass::AttributeName,
            TokenKind::AttributeValue { .. } => TokenClass::AttributeValue,
            TokenKind::Text { .. } => TokenClass::Text,
            TokenKind::TagEnd { .. } => TokenClass::TagEnd,
        }
    }

    /// The text this kind carries is `t` (`OpeningTagEnd` carries none).
    pub open spec fn carries(self, t: Seq<char>) -> bool {
        match self {
            TokenKind::TagName { name } => name@ == t,
            TokenKind::OpeningTagEnd => true,
            TokenKind::AttributeName { name } => name@ == t,
            TokenKind::AttributeValue { value } => value@ == t,
            TokenKind::Text { text } => text@ == t,
            TokenKind::TagEnd { name } => name@ == t,
        }
    }
}

/// A classified fragment of the input with the span it was read from.
#[derive(Debug)]
pub struct Token<'a> {
    pub span: Span<'a>,
    pub kind: TokenKind<'a>,
}

/// What the scanner emits, in the model: a kind and the indices of the
/// characters it covers.
pub struct Lexeme {
    pub class: TokenClass,
    pub start: int,
    pub end: int,
}

impl<'a> Token<'a> {
    /// This token is the lexeme `lx` read from `s`.
    pub open spec fn stands_for(self, s: Seq<char>, lx: Lexeme) -> bool {
        &&& self.kind.class() == lx.class
        &&& self.kind.carries(self.span.source@)
        &&& self.span.covers(s, lx.start, lx.end)
    }

    pub fn kind(&self) -> (r: &TokenKind<'a>)
        ensures
            r == &self.kind,
    {
        &self.kind
    }

    pub fn span(&self) -> (r: &Span<'a>)
        ensures
            r == &self.span,
    {
        &self.span
    }
}

/// The scanner's mode: what it expects to read next.
#[derive(Clone, Copy, PartialEq, Eq, Structural)]
pub enum ConsumeMode {
    /// Text, or the start of a tag.
    OutsideTag,
    /// Inside an opening tag: an attribute name or the closing `>`.
    AttributeName,
    /// Just after an attribute name: its value, if any.
    AttributeValue,
}

/// The scanner's state in the model: the index of the next character and
/// the mode.
pub struct ScanState {
    pub pos: int,
    pub mode: ConsumeMode,
}

pub open spec fn start_state() -> ScanState {
    ScanState { pos: 0, mode: ConsumeMode::OutsideTag }
}

/// `s` holds `c` at index `i`.
pub open spec fn at(s: Seq<char>, i: int, c: char) -> bool {
    0 <= i < s.len() && s[i] == c
}

/// The index after an optional `c` at `i`.
pub open spec fn skip_if(s: Seq<char>, i: int, c: char) -> int {
    if at(s, i, c) {
        i + 1
    } else {
        i
    }
}

/// The bounds of the identifier read at `i`, after optional white space.
pub open spec fn ident_from(s: Seq<char>, i: int) -> (int, int) {
    let a = run_end(s, i, CharClass::Whitespace);
    (a, run_end(s, a, CharClass::Identifier))
}

/// The bounds of the attribute value read at `p`, and the index after it.
pub open spec fn value_bounds(s: Seq<char>, p: int) -> (int, int, int) {
    if at(s, p, '=') {
        if at(s, p + 1, '"') || at(s, p + 1, '\'') {
            let b = run_end(s, p + 2, CharClass::Except(s[p + 1]));
            let e = skip_if(s, b, s[p + 1]);
            if b > p + 2 {
                (p + 2, b, e)
            } else {
                (e, e, e)
            }
        } else {
            let b = run_end(s, p + 1, CharClass::UnquotedValue);
            (p + 1, b, b)
        }
    } else {
        (p, p, p)
    }
}

pub open spec fn lexeme(class: TokenClass, start: int, end: int) -> Lexeme {
    Lexeme { class, start, end }
}

/// One move of the scanner on input `s`: the lexeme it emits, if any, and
/// the state it moves to.
pub open spec fn step(s: Seq<char>, st: ScanState) -> (Option<Lexeme>, ScanState) {
    let p = st.pos;
    match st.mode {
        ConsumeMode::OutsideTag => {
            if at(s, p, '<') {
                let (a, b) = ident_from(s, skip_if(s, p + 1, '/'));
                if at(s, p + 1, '/') {
                    (
                        Some(lexeme(TokenClass::TagEnd, a, b)),
                        ScanState { pos: skip_if(s, b, '>'), mode: ConsumeMode::OutsideTag },
                    )
                } else {
                    (
                        Some(lexeme(TokenClass::TagName, a, b)),
                        ScanState { pos: b, mode: ConsumeMode::AttributeName },
                    )
                }
            } else {
                let e = run_end(s, p, CharClass::Text);
                if e > p {
                    (
                        Some(lexeme(TokenClass::Text, p, e)),
                        ScanState { pos: e, mode: ConsumeMode::OutsideTag },
                    )
                } else {
                    (None, st)
                }
            }
        },
        ConsumeMode::AttributeName => {
            let q = skip_if(s, run_end(s, p, CharClass::Whitespace), '/');
            if at(s, q, '>') {
                (
                    Some(lexeme(TokenClass::OpeningTagEnd, q, q + 1)),
                    ScanState { pos: q + 1, mode: ConsumeMode::OutsideTag },
                )
            } else {
                let (a, b) = ident_from(s, q);
                if b > a {
                    (
                        Some(lexeme(TokenClass::AttributeName, a, b)),
                        ScanState { pos: b, mode: ConsumeMode::AttributeValue },
                    )
                } else {
                    (None, ScanState { pos: b, mode: ConsumeMode::AttributeName })
                }
            }
        },
        ConsumeMode::AttributeValue => {
            let (a, b, e) = value_bounds(s, p);
            (
                Some(lexeme(TokenClass::AttributeValue, a, b)),
                ScanState { pos: e, mode: ConsumeMode::AttributeName },
            )
        },
    }
}

/// A bound on the work left to the scanner; every emitted token lowers it.
pub open spec fn measure(s: Seq<char>, st: ScanState) -> int {
    2 * (s.len() - st.pos) + if st.mode == ConsumeMode::AttributeValue {
        1int
    } else {
        0int
    }
}

pub open spec fn valid_state(s: Seq<char>, st: ScanState) -> bool {
    0 <= st.pos <= s.len()
}

proof fn lemma_ident_from(s: Seq<char>, i: int)
    requires
        0 <= i <= s.len(),
    ensures
        i <= ident_from(s, i).0 <= ident_from(s, i).1 <= s.len(),
        only_markup(s, i, ident_from(s, i).0),
        ident_from(s, i).0 < s.len() ==> !in_class(s[ident_from(s, i).0], CharClass::Whitespace),
        ident_from(s, i).1 < s.len() ==> !in_class(s[ident_from(s, i).1], CharClass::Identifier),
{
    let a = run_end(s, i, CharClass::Whitespace);
    lemma_run_end(s, i, CharClass::Whitespace);
    lemma_run_end(s, a, CharClass::Identifier);
    assert forall|k: int| i <= k < a implies is_markup(#[trigger] s[k]) by {
        assert(in_class(s[k], CharClass::Whitespace));
    }
}

/// Each move keeps the state valid and never raises the measure; a move that
/// emits a lexeme lowers it. The lexeme lies between the old and new cursor,
/// and whatever the move passes over outside it is markup.
pub proof fn lemma_step(s: Seq<char>, st: ScanState)
    requires
        valid_state(s, st),
    ensures
        valid_state(s, step(s, st).1),
        st.pos <= step(s, st).1.pos,
        measure(s, step(s, st).1) <= measure(s, st),
        step(s, st).0 is Some ==> measure(s, step(s, st).1) < measure(s, st),
        step(s, st).0 is None ==> only_markup(s, st.pos, step(s, st).1.pos),
        step(s, st).0 is None ==> stops_at(s, step(s, st).1),
        step(s, st).0 is Some ==> {
            let lx = step(s, st).0->0;
            &&& st.pos <= lx.start <= lx.end <= step(s, st).1.pos
            &&& only_markup(s, st.pos, lx.start)
            &&& only_markup(s, lx.end, step(s, st).1.pos)
        },
{
    let p = st.pos;
    match st.mode {
        ConsumeMode::OutsideTag => {
            if at(s, p, '<') {
                let i = skip_if(s, p + 1, '/');
                lemma_ident_from(s, i);
            } else {
                lemma_run_end(s, p, CharClass::Text);
                if p < s.len() {
                    assert(in_class(s[p], CharClass::Text));
                }
            }
        },
        ConsumeMode::AttributeName => {
            let w = run_end(s, p, CharClass::Whitespace);
            lemma_run_end(s, p, CharClass::Whitespace);
            assert forall|k: int| p <= k < w implies is_markup(#[trigger] s[k]) by {
                assert(in_class(s[k], CharClass::Whitespace));
            }
            let q = skip_if(s, w, '/');
            if !at(s, q, '>') {
                lemma_ident_from(s, q);
            }
        },
        ConsumeMode::AttributeValue => {
            if at(s, p, '=') {
                if at(s, p + 1, '"') || at(s, p + 1, '\'') {
                    let b = run_end(s, p + 2, CharClass::Except(s[p + 1]));
                    lemma_run_end(s, p + 2, CharClass::Except(s[p + 1]));
                } else {
                    lemma_run_end(s, p + 1, CharClass::UnquotedValue);
                }
            }
        },
    }
}

/// The lexemes emitted by successive moves from `st`, up to the first move
/// that emits nothing, and the state after that move.
pub open spec fn tokens_from(s: Seq<char>, st: ScanState) -> (Seq<Lexeme>, ScanState)
    decreases measure(s, st),
    when valid_state(s, st)
    via tokens_from_decreases
{
    let (t, st1) = step(s, st);
    match t {
        None => (Seq::empty(), st1),
        Some(lx) => {
            let (rest, st2) = tokens_from(s, st1);
            (seq![lx] + rest, st2)
        },
    }
}

#[via_fn]
proof fn tokens_from_decreases(s: Seq<char>, st: ScanState) {
    lemma_step(s, st);
}

/// `s[from..to]` is the lexemes `toks` in order, each covering its own
/// characters, with only markup characters between and around them.
pub open spec fn tiles(s: Seq<char>, toks: Seq<Lexeme>, from: int, to: int) -> bool
    decreases toks.len(),
{
    if toks.len() == 0 {
        from <= to && only_markup(s, from, to)
    } else {
        &&& from <= toks[0].start <= toks[0].end
        &&& only_markup(s, from, toks[0].start)
        &&& tiles(s, toks.drop_first(), toks[0].end, to)
    }
}

proof fn lemma_tiles_widen(s: Seq<char>, toks: Seq<Lexeme>, a: int, b: int, to: int)
    requires
        a <= b,
        only_markup(s, a, b),
        tiles(s, toks, b, to),
    ensures
        tiles(s, toks, a, to),
{
    if toks.len() == 0 {
        assert forall|k: int| a <= k < to implies is_markup(#[trigger] s[k]) by {
            if k >= b {
                assert(only_markup(s, b, to));
            }
        }
    } else {
        assert forall|k: int| a <= k < toks[0].start implies is_markup(#[trigger] s[k]) by {
            if k >= b {
                assert(only_markup(s, b, toks[0].start));
            }
        }
    }
}

proof fn lemma_tokens_tile(s: Seq<char>, st: ScanState)
    requires
        valid_state(s, st),
    ensures
        tiles(s, tokens_from(s, st).0, st.pos, tokens_from(s, st).1.pos),
        stops_at(s, tokens_from(s, st).1),
    decreases measure(s, st),
{
    lemma_step(s, st);
    let (t, st1) = step(s, st);
    if t is Some {
        let lx = t->0;
        lemma_tokens_tile(s, st1);
        let (rest, st2) = tokens_from(s, st1);
        lemma_tiles_widen(s, rest, lx.end, st1.pos, st2.pos);
        assert((seq![lx] + rest).drop_first() =~= rest);
    }
}

/// Laid end to end in the order they are emitted, the tokens read from `s`
/// give back `s` up to where the scanner stops, less only characters that
/// are markup (white space, `<`, `/`, `>`, `=`, quotes) passed over between
/// tokens: no other character is lost, and none is read twice. The scanner
/// stops at the end of the input, or early inside an opening tag where a
/// `=`, `/` or `>` comes with no attribute name before it.
pub proof fn lemma_spans_rebuild_input(s: Seq<char>)
    ensures
        tiles(s, tokens_from(s, start_state()).0, 0, tokens_from(s, start_state()).1.pos),
        stops_at(s, tokens_from(s, start_state()).1),
{
    lemma_tokens_tile(s, start_state());
}

/// The line of a token's start is the number of line breaks before it in
/// the input.
pub proof fn lemma_token_line(tok: Token, s: Seq<char>, lx: Lexeme)
    requires
        tok.stands_for(s, lx),
    ensures
        tok.span.start.line == s.subrange(0, lx.start).filter(|c: char| c == '\n').len(),
{
}

/// Where the scanner may stop: at the end of the input, or inside an opening
/// tag before a `=`, `/` or `>` that no attribute name precedes.
pub open spec fn stops_at(s: Seq<char>, st: ScanState) -> bool {
    ||| st.pos == s.len()
    ||| st.mode == ConsumeMode::AttributeName && (at(s, st.pos, '=') || at(s, st.pos, '/') || at(
        s,
        st.pos,
        '>',
    ))
}

/// The scanner: a cursor over the characters of a borrowed input, a mode,
/// and the line and column of the cursor.
pub struct Tokenizer<'a> {
    source: &'a str,
    chars: Vec<char>,
    pos: usize,
    consume_mode: ConsumeMode,
    line: usize,
    column: usize,
}

impl<'a> Tokenizer<'a> {
    pub closed spec fn wf(self) -> bool {
        &&& self.chars@ == self.source@
        &&& self.pos <= self.chars@.len()
        &&& self.line == line_at(self.chars@, self.pos as int)
        &&& self.column == column_at(self.chars@, self.pos as int)
    }

    /// The characters being scanned.
    pub closed spec fn input(self) -> Seq<char> {
        self.source@
    }

    pub closed spec fn state(self) -> ScanState {
        ScanState { pos: self.pos as int, mode: self.consume_mode }
    }

    pub proof fn lemma_wf(self)
        requires
            self.wf(),
        ensures
            valid_state(self.input(), self.state()),
    {
    }

    pub fn new(source: &'a str) -> (r: Self)
        ensures
            r.wf(),
            r.input() == source@,
            r.state() == start_state(),
    {
        let chars = chars_of(source);
        proof {
            assert(source@.subrange(0, 0) =~= Seq::<char>::empty());
        }
        Tokenizer {
            source,
            chars,
            pos: 0,
            line: 0,
            column: 0,
            consume_mode: ConsumeMode::OutsideTag,
        }
    }

    /// Moves the cursor over the next `by` characters, or to the end of input.
    fn move_cursor(&mut self, by: usize)
        requires
            old(self).wf(),
        ensures
            final(self).wf(),
            final(self).input() == old(self).input(),
            final(self).consume_mode == old(self).consume_mode,
            final(self).pos == if old(self).pos + by <= old(self).chars@.len() {
                old(self).pos + by
            } else {
                old(self).chars@.len() as int
            },
    {
        let mut i: usize = 0;
        while i < by
            invariant
                self.wf(),
                self.input() == old(self).input(),
                self.consume_mode == old(self).consume_mode,
                i <= by,
                self.pos == if old(self).pos + i <= self.chars@.len() {
                    old(self).pos + i
                } else {
                    self.chars@.len() as int
                },
            decreases by - i,
        {
            if self.pos < self.chars.len() {
                let c = self.chars[self.pos];
                proof {
                    lemma_position_step(self.chars@, self.pos as int);
                }
                if c == '\n' {
                    self.line = self.line + 1;
                    self.column = 0;
                } else {
                    self.column = self.column + 1;
                }
                self.pos = self.pos + 1;
            }
            i = i + 1;
        }
    }

    fn look_ahead1(&self) -> (r: Option<char>)
        requires
            self.wf(),
        ensures
            r == if self.pos < self.chars@.len() {
                Some(self.chars@[self.pos as int])
            } else {
                None::<char>
            },
    {
        if self.pos < self.chars.len() {
            Some(self.chars[self.pos])
        } else {
            None
        }
    }

    fn current_position(&self) -> (r: Position)
        requires
            self.wf(),
        ensures
            r.sits_at(self.input(), self.pos as int),
    {
        Position { line: self.line, column: self.column }
    }

    /// The span from index `a` to the cursor, which starts at `start`.
    fn span_from(&self, a: usize, start: Position) -> (r: Span<'a>)
        requires
            self.wf(),
            a <= self.pos,
            start.sits_at(self.input(), a as int),
        ensures
            r.covers(self.input(), a as int, self.pos as int),
    {
        let src: &'a str = self.source;
        let text = src.substring_char(a, self.pos);
        Span { start, end: self.current_position(), source: text }
    }

    /// Consumes the character `c` if it is next.
    fn consume_character(&mut self, c: char) -> (r: Option<Span<'a>>)
        requires
            old(self).wf(),
        ensures
            final(self).wf(),
            final(self).input() == old(self).input(),
            final(self).consume_mode == old(self).consume_mode,
            final(self).pos == skip_if(old(self).input(), old(self).pos as int, c),
            r is Some <==> at(old(self).input(), old(self).pos as int, c),
            r is Some ==> r->0.covers(old(self).input(), old(self).pos as int, final(self).pos as int),
    {
        let start = self.current_position();
        let a = self.pos;
        match self.look_ahead1() {
            Some(next_c) => {
                if next_c != c {
                    return None;
                }
                self.move_cursor(1);
                Some(self.span_from(a, start))
            },
            None => None,
        }
    }

    /// Consumes the longest run of characters of `class`.
    fn consume_characters(&mut self, class: CharClass) -> (r: Option<Span<'a>>)
        requires
            old(self).wf(),
        ensures
            final(self).wf(),
            final(self).input() == old(self).input(),
            final(self).consume_mode == old(self).consume_mode,
            final(self).pos == run_end(old(self).input(), old(self).pos as int, class),
            r is Some <==> final(self).pos > old(self).pos,
            r is Some ==> r->0.covers(old(self).input(), old(self).pos as int, final(self).pos as int),
    {
        let start = self.current_position();
        let a = self.pos;
        while self.pos < self.chars.len() && char_in_class(self.chars[self.pos], class)
            invariant
                self.wf(),
                self.input() == old(self).input(),
                self.consume_mode == old(self).consume_mode,
                a <= self.pos,
                run_end(self.input(), a as int, class) == run_end(self.input(), self.pos as int, class),
            decreases self.chars@.len() - self.pos,
        {
            self.move_cursor(1);
        }
        if self.pos == a {
            None
        } else {
            Some(self.span_from(a, start))
        }
    }

    fn consume_whitespace(&mut self)
        requires
            old(self).wf(),
        ensures
            final(self).wf(),
            final(self).input() == old(self).input(),
            final(self).consume_mode == old(self).consume_mode,
            final(self).pos == run_end(old(self).input(), old(self).pos as int, CharClass::Whitespace),
    {
        self.consume_characters(CharClass::Whitespace);
    }

    /// Skips white space, then consumes an identifier, if there is one.
    fn consume_identifier(&mut self) -> (r: Option<Span<'a>>)
        requires
            old(self).wf(),
        ensures
            final(self).wf(),
            final(self).input() == old(self).input(),
            final(self).consume_mode == old(self).consume_mode,
            ({
                let (a, b) = ident_from(old(self).input(), old(self).pos as int);
                &&& final(self).pos == b
                &&& r is Some <==> b > a
                &&& r is Some ==> r->0.covers(old(self).input(), a, b)
            }),
    {
        self.consume_whitespace();
        self.consume_characters(CharClass::Identifier)
    }

    /// Reads the next token and moves the mode along.
    pub fn next(&mut self) -> (r: Option<Token<'a>>)
        requires
            old(self).wf(),
        ensures
            final(self).wf(),
            final(self).input() == old(self).input(),
            final(self).state() == step(old(self).input(), old(self).state()).1,
            r is Some <==> step(old(self).input(), old(self).state()).0 is Some,
            r is Some ==> r->0.stands_for(
                old(self).input(),
                step(old(self).input(), old(self).state()).0->0,
            ),
    {
        match self.consume_mode {
            ConsumeMode::OutsideTag => {
                let ghost s = self.input();
                let ghost p = self.pos as int;
                if let Some(tag) = self.consume_tag() {
                    let closing = match tag.kind {
                        TokenKind::TagEnd { .. } => true,
                        _ => false,
                    };
                    if !closing {
                        self.consume_mode = ConsumeMode::AttributeName;
                    }
                    Some(tag)
                } else {
                    proof {
                        lemma_run_end(s, p, CharClass::Text);
                    }
                    self.consume_text_node()
                }
            },
            ConsumeMode::AttributeName => {
                self.consume_whitespace();
                self.consume_character('/');
                if let Some(tag_end) = self.consume_opening_tag_end() {
                    self.consume_mode = ConsumeMode::OutsideTag;
                    Some(tag_end)
                } else if let Some(attribute_name) = self.consume_attribute_name() {
                    self.consume_mode = ConsumeMode::AttributeValue;
                    Some(attribute_name)
                } else {
                    None
                }
            },
            ConsumeMode::AttributeValue => {
                self.consume_mode = ConsumeMode::AttributeName;
                Some(self.consume_attribute_value())
            },
        }
    }

    /// Reads an attribute value: after `=`, a quoted or bare value; with no
    /// `=`, an empty value at the cursor.
    fn consume_attribute_value(&mut self) -> (r: Token<'a>)
        requires
            old(self).wf(),
        ensures
            final(self).wf(),
            final(self).input() == old(self).input(),
            final(self).consume_mode == old(self).consume_mode,
            ({
                let (a, b, e) = value_bounds(old(self).input(), old(self).pos as int);
                &&& final(self).pos == e
                &&& r.stands_for(old(self).input(), lexeme(TokenClass::AttributeValue, a, b))
            }),
    {
        let ghost s = self.input();
        let ghost p = self.pos as int;
        proof {
            lemma_step(s, ScanState { pos: p, mode: ConsumeMode::AttributeValue });
            if at(s, p, '=') {
                lemma_run_end(s, p + 1, CharClass::UnquotedValue);
                if p + 2 <= s.len() {
                    lemma_run_end(s, p + 2, CharClass::Except(s[p + 1]));
                }
            }
        }
        let span = if self.consume_character('=').is_some() {
            let quote = if self.consume_character('"').is_some() {
                Some('"')
            } else if self.consume_character('\'').is_some() {
                Some('\'')
            } else {
                None
            };
            match quote {
                Some(q) => {
                    assert(q == s[p + 1]);
                    match self.consume_characters(CharClass::Except(q)) {
                        Some(span) => {
                            self.consume_character(q);
                            span
                        },
                        None => {
                            self.consume_character(q);
                            Span::point(self.current_position())
                        },
                    }
                },
                None => {
                    match self.consume_characters(CharClass::UnquotedValue) {
                        Some(span) => span,
                        None => Span::point(self.current_position()),
                    }
                },
            }
        } else {
            Span::point(self.current_position())
        };
        proof {
            assert(s.subrange(self.pos as int, self.pos as int) =~= Seq::<char>::empty());
        }
        let value = span.source;
        Token { span, kind: TokenKind::AttributeValue { value } }
    }

    fn consume_opening_tag_end(&mut self) -> (r: Option<Token<'a>>)
        requires
            old(self).wf(),
        ensures
            final(self).wf(),
            final(self).input() == old(self).input(),
            final(self).consume_mode == old(self).consume_mode,
            final(self).pos == skip_if(old(self).input(), old(self).pos as int, '>'),
            r is Some <==> at(old(self).input(), old(self).pos as int, '>'),
            r is Some ==> r->0.stands_for(
                old(self).input(),
                lexeme(TokenClass::OpeningTagEnd, old(self).pos as int, old(self).pos + 1),
            ),
    {
        match self.consume_character('>') {
            Some(span) => Some(Token { span, kind: TokenKind::OpeningTagEnd }),
            None => None,
        }
    }

    fn consume_text_node(&mut self) -> (r: Option<Token<'a>>)
        requires
            old(self).wf(),
        ensures
            final(self).wf(),
            final(self).input() == old(self).input(),
            final(self).consume_mode == old(self).consume_mode,
            final(self).pos == run_end(old(self).input(), old(self).pos as int, CharClass::Text),
            r is Some <==> final(self).pos > old(self).pos,
            r is Some ==> r->0.stands_for(
                old(self).input(),
                lexeme(TokenClass::Text, old(self).pos as int, final(self).pos as int),
            ),
    {
        match self.consume_characters(CharClass::Text) {
            Some(text_span) => {
                let text = text_span.source;
                Some(Token { span: text_span, kind: TokenKind::Text { text } })
            },
            None => None,
        }
    }

    /// Reads `<` or `</` and the tag name after it, and for a closing tag an
    /// optional `>`.
    fn consume_tag(&mut self) -> (r: Option<Token<'a>>)
        requires
            old(self).wf(),
            old(self).consume_mode == ConsumeMode::OutsideTag,
        ensures
            final(self).wf(),
            final(self).input() == old(self).input(),
            final(self).consume_mode == old(self).consume_mode,
            ({
                let s = old(self).input();
                let (lx, st) = step(s, old(self).state());
                &&& r is Some <==> at(s, old(self).pos as int, '<')
                &&& r is Some ==> {
                    &&& lx is Some
                    &&& r->0.stands_for(s, lx->0)
                    &&& final(self).pos == st.pos
                    &&& (r->0.kind is TagEnd <==> lx->0.class is TagEnd)
                }
                &&& r is None ==> final(self).pos == old(self).pos
            }),
    {
        let ghost s = self.input();
        match self.look_ahead1() {
            Some(c) => {
                if c == '<' {
                    let ghost p = self.pos as int;
                    self.move_cursor(1);
                    let is_closing = self.consume_character('/').is_some();
                    let identifier = match self.consume_identifier() {
                        Some(span) => span,
                        None => Span::point(self.current_position()),
                    };
                    proof {
                        lemma_ident_from(s, skip_if(s, p + 1, '/'));
                        assert(s.subrange(self.pos as int, self.pos as int) =~= Seq::<char>::empty());
                    }
                    if is_closing {
                        self.consume_character('>');
                    }
                    let name = identifier.source;
                    Some(
                        Token {
                            span: identifier,
                            kind: if is_closing {
                                TokenKind::TagEnd { name }
                            } else {
                                TokenKind::TagName { name }
                            },
                        },
                    )
                } else {
                    None
                }
            },
            None => None,
        }
    }

    fn consume_attribute_name(&mut self) -> (r: Option<Token<'a>>)
        requires
            old(self).wf(),
        ensures
            final(self).wf(),
            final(self).input() == old(self).input(),
            final(self).consume_mode == old(self).consume_mode,
            ({
                let (a, b) = ident_from(old(self).input(), old(self).pos as int);
                &&& final(self).pos == b
                &&& r is Some <==> b > a
                &&& r is Some ==> r->0.stands_for(
                    old(self).input(),
                    lexeme(TokenClass::AttributeName, a, b),
                )
            }),
    {
        match self.consume_identifier() {
            Some(identifier) => {
                let name = identifier.source;
                Some(Token { span: identifier, kind: TokenKind::AttributeName { name } })
            },
            None => None,
        }
    }
}

} // verus!
