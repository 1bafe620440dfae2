//! A tokenizer and parser for a small CSS-like selector language.
//!
//! A selector is a sequence of simple selectors joined by combinators
//! (descendant space, child `>`, adjacent sibling `+`).  Each simple
//! selector is a type name or `*`, followed by sub-selectors: classes
//! (`.name`), ids (`#name`), attribute tests (`[attr]`, `[attr=v]`,
//! `[attr~=v]`, `[attr|=v]`) and pseudo-classes (`:name`).
use vstd::prelude::*;

verus! {

/// A parse error of the selector language.
#[derive(Clone, Copy, Debug, PartialEq, Eq, Structural)]
pub enum SelectorError {
    /// A combinator was not followed by a selector before the end of input.
    SelectorMissing,
    /// A selector token appeared where it cannot stand (for example two
    /// type selectors back to back).
    UnexpectedSelector,
    /// A combinator appeared at the start or right after another combinator.
    UnexpectedCombinator,
    /// An attribute selector with an operator that is none of `]`, `=`,
    /// `~=`, `|=`, or an unterminated one.
    InvalidAttributeSelector,
    /// An identifier was expected and the next character cannot start one.
    InvalidIdent,
    /// A comment `/* ... */` or a quoted string is left unterminated.
    UnexpectedEnd,
}

/// Character classes of the selector grammar.
pub open spec fn is_space_char(c: char) -> bool {
    c == ' ' || c == '\t' || c == '\n' || c == '\r' || c == '\u{0c}'
}

/// Identifier characters: ASCII letters, digits, `-` and `_`.
pub open spec fn is_ident_char(c: char) -> bool {
    ('a' <= c && c <= 'z') || ('A' <= c && c <= 'Z') || ('0' <= c && c <= '9') || c == '-' || c
        == '_'
}

/// The first position at or after `pos` that does not hold an
/// identifier character (or the end of the text).
pub open spec fn ident_end(text: Seq<char>, pos: int) -> int
    decreases text.len() - pos,
{
    if pos < 0 {
        pos
    } else if pos < text.len() && is_ident_char(text[pos]) {
        ident_end(text, pos + 1)
    } else {
        pos
    }
}

/// The first position at or after `pos` that does not hold whitespace.
pub open spec fn space_end(text: Seq<char>, pos: int) -> int
    decreases text.len() - pos,
{
    if pos < 0 {
        pos
    } else if pos < text.len() && is_space_char(text[pos]) {
        space_end(text, pos + 1)
    } else {
        pos
    }
}

/// The first position at or after `pos` holding the quote `q`
/// (or the end of the text if there is none).
pub open spec fn quote_end(text: Seq<char>, pos: int, q: char) -> int
    decreases text.len() - pos,
{
    if pos < 0 {
        pos
    } else if pos < text.len() && text[pos] != q {
        quote_end(text, pos + 1, q)
    } else {
        pos
    }
}

/// The first position `i` at or after `pos` where `*/` stands
/// (or the end of the text if there is none).
pub open spec fn comment_close(text: Seq<char>, pos: int) -> int
    decreases text.len() - pos,
{
    if pos < 0 {
        pos
    } else if pos + 1 < text.len() && !(text[pos] == '*' && text[pos + 1] == '/') {
        comment_close(text, pos + 1)
    } else if pos + 1 < text.len() {
        pos
    } else {
        text.len() as int
    }
}

proof fn lemma_ident_end_bounds(text: Seq<char>, pos: int)
    requires
        0 <= pos <= text.len(),
    ensures
        pos <= ident_end(text, pos) <= text.len(),
    decreases text.len() - pos,
{
    if pos < text.len() && is_ident_char(text[pos]) {
        lemma_ident_end_bounds(text, pos + 1);
    }
}

proof fn lemma_space_end_bounds(text: Seq<char>, pos: int)
    requires
        0 <= pos <= text.len(),
    ensures
        pos <= space_end(text, pos) <= text.len(),
    decreases text.len() - pos,
{
    if pos < text.len() && is_space_char(text[pos]) {
        lemma_space_end_bounds(text, pos + 1);
    }
}

proof fn lemma_quote_end_bounds(text: Seq<char>, pos: int, q: char)
    requires
        0 <= pos <= text.len(),
    ensures
        pos <= quote_end(text, pos, q) <= text.len(),
    decreases text.len() - pos,
{
    if pos < text.len() && text[pos] != q {
        lemma_quote_end_bounds(text, pos + 1, q);
    }
}

proof fn lemma_comment_close_bounds(text: Seq<char>, pos: int)
    requires
        0 <= pos <= text.len(),
    ensures
        pos <= comment_close(text, pos) <= text.len(),
        comment_close(text, pos) == text.len() || comment_close(text, pos) + 2 <= text.len(),
    decreases text.len() - pos,
{
    if pos + 1 < text.len() && !(text[pos] == '*' && text[pos + 1] == '/') {
        lemma_comment_close_bounds(text, pos + 1);
    }
}

/// Executable test matching `is_space_char`.
pub fn is_space(c: char) -> (r: bool)
    ensures
        r == is_space_char(c),
{
    c == ' ' || c == '\t' || c == '\n' || c == '\r' || c == '\u{0c}'
}

/// Executable test matching `is_ident_char`.
pub fn is_ident(c: char) -> (r: bool)
    ensures
        r == is_ident_char(c),
{
    ('a' <= c && c <= 'z') || ('A' <= c && c <= 'Z') || ('0' <= c && c <= '9') || c == '-' || c
        == '_'
}

/// A selector tokenizer over a fixed sequence of characters.
pub struct SelectorTokenizer {
    text: Vec<char>,
    pos: usize,
    after_combinator: bool,
    finished: bool,
}

impl SelectorTokenizer {
    /// The remaining text is well formed when the position is inside it.
    pub open spec fn wf(self) -> bool {
        self.spec_pos() <= self.spec_text().len()
    }

    pub closed spec fn spec_text(self) -> Seq<char> {
        self.text@
    }

    /// How many characters of the input were consumed so far.
    pub closed spec fn spec_pos(self) -> int {
        self.pos as int
    }

    pub closed spec fn spec_after_combinator(self) -> bool {
        self.after_combinator
    }

    pub closed spec fn spec_finished(self) -> bool {
        self.finished
    }

    /// Number of characters consumed so far.
    pub fn pos(&self) -> (r: usize)
        ensures
            r == self.spec_pos(),
    {
        self.pos
    }

    fn skip_spaces(&mut self)
        requires
            old(self).wf(),
        ensures
            final(self).wf(),
            final(self).spec_text() == old(self).spec_text(),
            final(self).spec_after_combinator() == old(self).spec_after_combinator(),
            final(self).spec_finished() == old(self).spec_finished(),
            final(self).spec_pos() == space_end(old(self).spec_text(), old(self).spec_pos()),
    {
        proof {
            lemma_space_end_bounds(self.text@, self.pos as int);
        }
        while self.pos < self.text.len() && is_space(self.text[self.pos])
            invariant
                self.wf(),
                self.text@ == old(self).spec_text(),
                self.after_combinator == old(self).spec_after_combinator(),
                self.finished == old(self).spec_finished(),
                space_end(self.text@, self.pos as int) == space_end(
                    old(self).spec_text(),
                    old(self).spec_pos(),
                ),
            decreases self.text@.len() - self.pos,
        {
            self.pos = self.pos + 1;
        }
    }

    /// Consumes the identifier starting at the current position and
    /// returns it; fails when no identifier character stands there.
    fn consume_ident(&mut self) -> (r: Result<String, SelectorError>)
        requires
            old(self).wf(),
        ensures
            final(self).wf(),
            final(self).spec_text() == old(self).spec_text(),
            final(self).spec_after_combinator() == old(self).spec_after_combinator(),
            final(self).spec_finished() == old(self).spec_finished(),
            ({
                let e = ident_end(old(self).spec_text(), old(self).spec_pos());
                if e == old(self).spec_pos() {
                    r == Result::<String, SelectorError>::Err(SelectorError::InvalidIdent)
                        && final(self).spec_pos() == old(self).spec_pos()
                } else {
                    r matches Ok(id) && id@ == old(self).spec_text().subrange(
                        old(self).spec_pos(),
                        e,
                    ) && final(self).spec_pos() == e
                }
            }),
    {
        proof {
            lemma_ident_end_bounds(self.text@, self.pos as int);
        }
        let mut out = String::new();
        if !(self.pos < self.text.len() && is_ident(self.text[self.pos])) {
            return Err(SelectorError::InvalidIdent);
        }
        while self.pos < self.text.len() && is_ident(self.text[self.pos])
            invariant
                self.wf(),
                self.text@ == old(self).spec_text(),
                self.after_combinator == old(self).spec_after_combinator(),
                self.finished == old(self).spec_finished(),
                old(self).spec_pos() <= self.pos as int,
                out@ == self.text@.subrange(old(self).spec_pos(), self.pos as int),
                ident_end(self.text@, self.pos as int) == ident_end(
                    old(self).spec_text(),
                    old(self).spec_pos(),
                ),
            decreases self.text@.len() - self.pos,
        {
            out.push(self.text[self.pos]);
            self.pos = self.pos + 1;
            proof {
                assert(out@ =~= self.text@.subrange(old(self).spec_pos(), self.pos as int));
            }
        }
        Ok(out)
    }

    /// Consumes an attribute value: a quoted string (single or double
    /// quotes) or a bare identifier.
    fn consume_string(&mut self) -> (r: Result<String, SelectorError>)
        requires
            old(self).wf(),
        ensures
            final(self).wf(),
            final(self).spec_text() == old(self).spec_text(),
            final(self).spec_after_combinator() == old(self).spec_after_combinator(),
            final(self).spec_finished() == old(self).spec_finished(),
            ({
                let text = old(self).spec_text();
                let p = old(self).spec_pos();
                if p < text.len() && (text[p] == '\'' || text[p] == '"') {
                    let e = quote_end(text, p + 1, text[p]);
                    if e == text.len() {
                        r == Result::<String, SelectorError>::Err(SelectorError::UnexpectedEnd)
                            && final(self).spec_pos() == p
                    } else {
                        r matches Ok(v) && v@ == text.subrange(p + 1, e) && final(self).spec_pos()
                            == e + 1
                    }
                } else {
                    let e = ident_end(text, p);
                    if e == p {
                        r == Result::<String, SelectorError>::Err(SelectorError::InvalidIdent)
                            && final(self).spec_pos() == p
                    } else {
                        r matches Ok(v) && v@ == text.subrange(p, e) && final(self).spec_pos() == e
                    }
                }
            }),
    {
        if self.pos < self.text.len() {
            let q = self.text[self.pos];
            if q == '\'' || q == '"' {
                proof {
                    lemma_quote_end_bounds(self.text@, self.pos as int + 1, q);
                }
                let start = self.pos + 1;
                let mut i = start;
                let mut out = String::new();
                while i < self.text.len() && self.text[i] != q
                    invariant
                        self.wf(),
                        start <= i as int <= self.text@.len(),
                        q == self.text@[self.pos as int],
                        self.pos < self.text@.len(),
                        start == self.pos + 1,
                        out@ == self.text@.subrange(start as int, i as int),
                        quote_end(self.text@, i as int, q) == quote_end(
                            self.text@,
                            start as int,
                            q,
                        ),
                    decreases self.text@.len() - i,
                {
                    out.push(self.text[i]);
                    i = i + 1;
                    proof {
                        assert(out@ =~= self.text@.subrange(start as int, i as int));
                    }
                }
                if i == self.text.len() {
                    return Err(SelectorError::UnexpectedEnd);
                }
                self.pos = i + 1;
                return Ok(out);
            }
        }
        self.consume_ident()
    }

    /// Skips a `/* ... */` comment starting at the current position.
    /// Fails when no comment starts here or it is unterminated.
    fn skip_comment(&mut self) -> (r: Result<(), SelectorError>)
        requires
            old(self).wf(),
        ensures
            final(self).wf(),
            final(self).spec_text() == old(self).spec_text(),
            final(self).spec_after_combinator() == old(self).spec_after_combinator(),
            final(self).spec_finished() == old(self).spec_finished(),
            ({
                let text = old(self).spec_text();
                let p = old(self).spec_pos();
                if p + 1 < text.len() && text[p] == '/' && text[p + 1] == '*' {
                    let e = comment_close(text, p + 2);
                    if e == text.len() {
                        r == Result::<(), SelectorError>::Err(SelectorError::UnexpectedEnd)
                            && final(self).spec_pos() == p
                    } else {
                        r == Result::<(), SelectorError>::Ok(()) && final(self).spec_pos() == e + 2
                    }
                } else {
                    r == Result::<(), SelectorError>::Err(SelectorError::UnexpectedEnd)
                        && final(self).spec_pos() == p
                }
            }),
    {
        if !(self.pos < self.text.len() && self.pos + 1 < self.text.len()
            && self.text[self.pos] == '/' && self.text[self.pos + 1] == '*') {
            return Err(SelectorError::UnexpectedEnd);
        }
        proof {
            lemma_comment_close_bounds(self.text@, self.pos as int + 2);
        }
        let mut i = self.pos + 2;
        while i < self.text.len() && i + 1 < self.text.len()
            && !(self.text[i] == '*' && self.text[i + 1] == '/')
            invariant
                self.wf(),
                self.pos as int + 2 <= i as int <= self.text@.len(),
                comment_close(self.text@, i as int) == comment_close(
                    self.text@,
                    self.pos as int + 2,
                ),
                0 <= i as int,
            decreases self.text@.len() - i,
        {
            i = i + 1;
        }
        if i < self.text.len() && i + 1 < self.text.len() {
            self.pos = i + 2;
            Ok(())
        } else {
            Err(SelectorError::UnexpectedEnd)
        }
    }
}

/// An attribute selector operator.
#[derive(Clone, Debug, PartialEq, Eq)]
pub enum AttributeOperator {
    /// `[attr]`
    Exists,
    /// `[attr=value]`
    Matches(String),
    /// `[attr~=value]`
    Contains(String),
    /// `[attr|=value]`
    StartsWith(String),
}

/// The mathematical value of an `AttributeOperator`: the same shape
/// over character sequences.
pub enum AttributeOperatorModel {
    Exists,
    Matches(Seq<char>),
    Contains(Seq<char>),
    StartsWith(Seq<char>),
}

impl AttributeOperator {
    pub open spec fn model(self) -> AttributeOperatorModel {
        match self {
            AttributeOperator::Exists => AttributeOperatorModel::Exists,
            AttributeOperator::Matches(v) => AttributeOperatorModel::Matches(v@),
            AttributeOperator::Contains(v) => AttributeOperatorModel::Contains(v@),
            AttributeOperator::StartsWith(v) => AttributeOperatorModel::StartsWith(v@),
        }
    }
}

/// A selector token.
#[derive(Clone, Debug, PartialEq, Eq)]
pub enum SelectorToken {
    /// `*`
    UniversalSelector,
    /// `div`
    TypeSelector(String),
    /// `.class`
    ClassSelector(String),
    /// `#id`
    IdSelector(String),
    /// `[color=red]`
    AttributeSelector(String, AttributeOperator),
    /// `:first-child`
    PseudoClass(String),
    /// `a b`
    DescendantCombinator,
    /// `a > b`
    ChildCombinator,
    /// `a + b`
    AdjacentCombinator,
}

/// The mathematical value of a `SelectorToken`.
pub enum TokenModel {
    Universal,
    Type(Seq<char>),
    Class(Seq<char>),
    Id(Seq<char>),
    Attribute(Seq<char>, AttributeOperatorModel),
    Pseudo(Seq<char>),
    Descendant,
    Child,
    Adjacent,
}

impl SelectorToken {
    pub open spec fn model(self) -> TokenModel {
        match self {
            SelectorToken::UniversalSelector => TokenModel::Universal,
            SelectorToken::TypeSelector(v) => TokenModel::Type(v@),
            SelectorToken::ClassSelector(v) => TokenModel::Class(v@),
            SelectorToken::IdSelector(v) => TokenModel::Id(v@),
            SelectorToken::AttributeSelector(n, op) => TokenModel::Attribute(n@, op.model()),
            SelectorToken::PseudoClass(v) => TokenModel::Pseudo(v@),
            SelectorToken::DescendantCombinator => TokenModel::Descendant,
            SelectorToken::ChildCombinator => TokenModel::Child,
            SelectorToken::AdjacentCombinator => TokenModel::Adjacent,
        }
    }
}

/// What one step of the tokenizer yields: the produced item (`None`
/// when the input is exhausted) and the state after the step.
pub struct TokenStep {
    pub item: Option<Result<TokenModel, SelectorError>>,
    pub pos: int,
    pub after: bool,
    pub fin: bool,
}

/// Where a run of comments, each followed by whitespace, ends.
pub struct CommentsStep {
    /// The error when a comment is unterminated or a lone `/` stands here.
    pub err: Option<SelectorError>,
    /// The position after the run, or where the offending `/` stands.
    pub pos: int,
}

/// Skips a run of comments starting at `pos`, each followed by
/// whitespace.
pub open spec fn skip_comments_spaces(text: Seq<char>, pos: int) -> CommentsStep
    decreases text.len() - pos,
    via skip_comments_spaces_decreases
{
    if 0 <= pos && pos < text.len() && text[pos] == '/' {
        if pos + 1 < text.len() && text[pos + 1] == '*' {
            let e = comment_close(text, pos + 2);
            if e == text.len() {
                CommentsStep { err: Some(SelectorError::UnexpectedEnd), pos }
            } else {
                skip_comments_spaces(text, space_end(text, e + 2))
            }
        } else {
            CommentsStep { err: Some(SelectorError::UnexpectedEnd), pos }
        }
    } else {
        CommentsStep { err: None, pos }
    }
}

#[via_fn]
proof fn skip_comments_spaces_decreases(text: Seq<char>, pos: int) {
    if 0 <= pos && pos < text.len() && text[pos] == '/' && pos + 1 < text.len() && text[pos + 1]
        == '*' {
        let e = comment_close(text, pos + 2);
        lemma_comment_close_bounds(text, pos + 2);
        if e != text.len() {
            lemma_space_end_bounds(text, e + 2);
        }
    }
}

/// One step of the selector tokenizer: from a state (position,
/// whether a combinator was just seen, whether tokenizing stopped)
/// to the next token and state.  This is the grammar of the token
/// layer; `SelectorTokenizer::next_token` is proved to follow it.
pub open spec fn spec_next_token(text: Seq<char>, pos: int, after: bool, fin: bool) -> TokenStep
    decreases text.len() - pos, (if fin { 0int } else { 1int }), (if after { 1int } else { 0int }),
    via spec_next_token_decreases
{
    if fin || pos >= text.len() || pos < 0 {
        if after {
            TokenStep { item: Some(Err(SelectorError::SelectorMissing)), pos, after: false, fin }
        } else {
            TokenStep { item: None, pos, after, fin }
        }
    } else {
        let c = text[pos];
        if c == '*' {
            if !after {
                TokenStep { item: Some(Err(SelectorError::UnexpectedSelector)), pos, after, fin: true }
            } else {
                TokenStep { item: Some(Ok(TokenModel::Universal)), pos: pos + 1, after: false, fin }
            }
        } else if c == '#' {
            let e = ident_end(text, pos + 1);
            if e == pos + 1 {
                TokenStep { item: Some(Err(SelectorError::InvalidIdent)), pos: pos + 1, after: false, fin: true }
            } else {
                TokenStep { item: Some(Ok(TokenModel::Id(text.subrange(pos + 1, e)))), pos: e, after: false, fin }
            }
        } else if c == '.' {
            let e = ident_end(text, pos + 1);
            if e == pos + 1 {
                TokenStep { item: Some(Err(SelectorError::InvalidIdent)), pos: pos + 1, after: false, fin: true }
            } else {
                TokenStep { item: Some(Ok(TokenModel::Class(text.subrange(pos + 1, e)))), pos: e, after: false, fin }
            }
        } else if c == '[' {
            spec_attribute_token(text, pos)
        } else if c == ':' {
            let e = ident_end(text, pos + 1);
            if e == pos + 1 {
                TokenStep { item: Some(Err(SelectorError::InvalidIdent)), pos: pos + 1, after: false, fin: true }
            } else {
                TokenStep { item: Some(Ok(TokenModel::Pseudo(text.subrange(pos + 1, e)))), pos: e, after: false, fin }
            }
        } else if c == '>' {
            if after {
                TokenStep { item: Some(Err(SelectorError::UnexpectedCombinator)), pos, after: false, fin: true }
            } else {
                TokenStep { item: Some(Ok(TokenModel::Child)), pos: pos + 1, after: true, fin }
            }
        } else if c == '+' {
            if after {
                TokenStep { item: Some(Err(SelectorError::UnexpectedCombinator)), pos, after: false, fin: true }
            } else {
                TokenStep { item: Some(Ok(TokenModel::Adjacent)), pos: pos + 1, after: true, fin }
            }
        } else if is_space_char(c) {
            let p = space_end(text, pos);
            if after {
                spec_next_token(text, p, after, fin)
            } else {
                let cs = skip_comments_spaces(text, p);
                if cs.err is Some {
                    TokenStep { item: Some(Err(cs.err->Some_0)), pos: cs.pos, after, fin: true }
                } else {
                    let p2 = cs.pos;
                    if p2 >= text.len() || text[p2] == '>' || text[p2] == '+' || text[p2] == ','
                        || text[p2] == '{' {
                        spec_next_token(text, p2, after, fin)
                    } else {
                        TokenStep { item: Some(Ok(TokenModel::Descendant)), pos: p2, after: true, fin }
                    }
                }
            }
        } else if c == '/' {
            if pos + 1 < text.len() && text[pos + 1] == '*' {
                let e = comment_close(text, pos + 2);
                if e == text.len() {
                    TokenStep { item: Some(Err(SelectorError::UnexpectedEnd)), pos, after, fin: true }
                } else {
                    spec_next_token(text, e + 2, after, fin)
                }
            } else {
                spec_next_token(text, pos, after, true)
            }
        } else if c == ',' || c == '{' {
            spec_next_token(text, pos, after, true)
        } else {
            let e = ident_end(text, pos);
            if e == pos {
                TokenStep { item: Some(Err(SelectorError::InvalidIdent)), pos, after, fin: true }
            } else if !after {
                TokenStep { item: Some(Err(SelectorError::UnexpectedSelector)), pos: e, after, fin: true }
            } else {
                TokenStep { item: Some(Ok(TokenModel::Type(text.subrange(pos, e)))), pos: e, after: false, fin }
            }
        }
    }
}

#[via_fn]
proof fn spec_next_token_decreases(text: Seq<char>, pos: int, after: bool, fin: bool) {
    if !(fin || pos >= text.len() || pos < 0) {
        let c = text[pos];
        if is_space_char(c) {
            assert(space_end(text, pos) == space_end(text, pos + 1));
            lemma_space_end_bounds(text, pos + 1);
            let p = space_end(text, pos);
            assert(p > pos);
            if !after {
                lemma_skip_comments_spaces_bounds(text, p);
            }
        } else if c == '/' {
            if pos + 1 < text.len() && text[pos + 1] == '*' {
                lemma_comment_close_bounds(text, pos + 2);
            }
        }
    }
}

proof fn lemma_skip_comments_spaces_bounds(text: Seq<char>, pos: int)
    requires
        0 <= pos <= text.len(),
    ensures
        pos <= skip_comments_spaces(text, pos).pos <= text.len(),
    decreases text.len() - pos,
{
    if 0 <= pos && pos < text.len() && text[pos] == '/' {
        if pos + 1 < text.len() && text[pos + 1] == '*' {
            let e = comment_close(text, pos + 2);
            lemma_comment_close_bounds(text, pos + 2);
            if e != text.len() {
                lemma_space_end_bounds(text, e + 2);
                lemma_skip_comments_spaces_bounds(text, space_end(text, e + 2));
            }
        }
    }
}

/// The attribute-selector branch of the token grammar: the text at
/// `pos` holds `[`, then an attribute name, an operator and an
/// optional value, then `]`.
pub open spec fn spec_attribute_token(text: Seq<char>, pos: int) -> TokenStep {
    let e = ident_end(text, pos + 1);
    if e == pos + 1 {
        TokenStep { item: Some(Err(SelectorError::InvalidIdent)), pos: pos + 1, after: false, fin: true }
    } else {
        let name = text.subrange(pos + 1, e);
        if e >= text.len() {
            TokenStep { item: Some(Err(SelectorError::UnexpectedEnd)), pos: e, after: false, fin: true }
        } else if text[e] == ']' {
            TokenStep { item: Some(Ok(TokenModel::Attribute(name, AttributeOperatorModel::Exists))), pos: e + 1, after: false, fin: false }
        } else if text[e] == '=' {
            spec_attribute_value(text, name, e + 1, AttributeValueShape::Matches)
        } else if text[e] == '~' {
            if e + 1 < text.len() && text[e + 1] == '=' {
                spec_attribute_value(text, name, e + 2, AttributeValueShape::Contains)
            } else {
                TokenStep { item: Some(Err(SelectorError::InvalidAttributeSelector)), pos: e + 1, after: false, fin: true }
            }
        } else if text[e] == '|' {
            if e + 1 < text.len() && text[e + 1] == '=' {
                spec_attribute_value(text, name, e + 2, AttributeValueShape::StartsWith)
            } else {
                TokenStep { item: Some(Err(SelectorError::InvalidAttributeSelector)), pos: e + 1, after: false, fin: true }
            }
        } else {
            TokenStep { item: Some(Err(SelectorError::InvalidAttributeSelector)), pos: e, after: false, fin: true }
        }
    }
}

/// Which operator an attribute value belongs to.
pub enum AttributeValueShape {
    Matches,
    Contains,
    StartsWith,
}

pub open spec fn make_attribute_operator(shape: AttributeValueShape, v: Seq<char>) -> AttributeOperatorModel {
    match shape {
        AttributeValueShape::Matches => AttributeOperatorModel::Matches(v),
        AttributeValueShape::Contains => AttributeOperatorModel::Contains(v),
        AttributeValueShape::StartsWith => AttributeOperatorModel::StartsWith(v),
    }
}

/// The value-and-closing-bracket part of an attribute selector,
/// starting at `pos` (right after the operator).
pub open spec fn spec_attribute_value(text: Seq<char>, name: Seq<char>, pos: int, shape: AttributeValueShape) -> TokenStep {
    let quoted = pos < text.len() && (text[pos] == '\'' || text[pos] == '"');
    if quoted {
        let e = quote_end(text, pos + 1, text[pos]);
        if e == text.len() {
            TokenStep { item: Some(Err(SelectorError::UnexpectedEnd)), pos, after: false, fin: true }
        } else {
            spec_attribute_close(text, name, text.subrange(pos + 1, e), e + 1, shape)
        }
    } else {
        let e = ident_end(text, pos);
        if e == pos {
            TokenStep { item: Some(Err(SelectorError::InvalidIdent)), pos, after: false, fin: true }
        } else {
            spec_attribute_close(text, name, text.subrange(pos, e), e, shape)
        }
    }
}

/// The closing `]` of an attribute selector at `pos`.
pub open spec fn spec_attribute_close(text: Seq<char>, name: Seq<char>, value: Seq<char>, pos: int, shape: AttributeValueShape) -> TokenStep {
    if pos >= text.len() {
        TokenStep { item: Some(Err(SelectorError::UnexpectedEnd)), pos, after: false, fin: true }
    } else if text[pos] == ']' {
        TokenStep { item: Some(Ok(TokenModel::Attribute(name, make_attribute_operator(shape, value)))), pos: pos + 1, after: false, fin: false }
    } else {
        TokenStep { item: Some(Err(SelectorError::InvalidAttributeSelector)), pos, after: false, fin: true }
    }
}

/// Whether an executable token item has the given mathematical value.
pub open spec fn item_models(
    r: Option<Result<SelectorToken, SelectorError>>,
    m: Option<Result<TokenModel, SelectorError>>,
) -> bool {
    match r {
        Option::None => m is None,
        Option::Some(Err(e)) => m == Some(Result::<TokenModel, SelectorError>::Err(e)),
        Option::Some(Ok(t)) => m matches Some(Ok(tm)) && t.model() == tm,
    }
}

impl SelectorTokenizer {
    /// Starts tokenizing the given text.
    pub fn new(text: &str) -> (r: SelectorTokenizer)
        ensures
            r.wf(),
            r.spec_text() == text@,
            r.spec_pos() == 0,
            r.spec_after_combinator(),
            !r.spec_finished(),
    {
        let n = text.unicode_len();
        let mut cs: Vec<char> = Vec::new();
        for i in 0..n
            invariant
                n == text@.len(),
                cs@ =~= text@.subrange(0, i as int),
        {
            cs.push(text.get_char(i));
        }
        proof {
            assert(cs@ =~= text@);
        }
        SelectorTokenizer { text: cs, pos: 0, after_combinator: true, finished: false }
    }

    /// Skips a run of comments, each followed by whitespace.
    fn skip_cs(&mut self) -> (r: Result<(), SelectorError>)
        requires
            old(self).wf(),
        ensures
            final(self).wf(),
            final(self).spec_text() == old(self).spec_text(),
            final(self).spec_after_combinator() == old(self).spec_after_combinator(),
            final(self).spec_finished() == old(self).spec_finished(),
            ({
                let cs = skip_comments_spaces(old(self).spec_text(), old(self).spec_pos());
                final(self).spec_pos() == cs.pos && (match cs.err {
                    Option::Some(e) => r == Result::<(), SelectorError>::Err(e),
                    Option::None => r == Result::<(), SelectorError>::Ok(()),
                })
            }),
    {
        while self.pos < self.text.len() && self.text[self.pos] == '/'
            invariant
                self.wf(),
                self.text@ == old(self).spec_text(),
                self.after_combinator == old(self).spec_after_combinator(),
                self.finished == old(self).spec_finished(),
                skip_comments_spaces(self.text@, self.pos as int) == skip_comments_spaces(
                    old(self).spec_text(),
                    old(self).spec_pos(),
                ),
            decreases self.text@.len() - self.pos,
        {
            let ghost p0 = self.pos as int;
            let r = self.skip_comment();
            if let Err(e) = r {
                return Err(e);
            }
            proof {
                lemma_comment_close_bounds(self.text@, p0 + 2);
                lemma_space_end_bounds(self.text@, self.pos as int);
            }
            self.skip_spaces();
        }
        Ok(())
    }

    /// The attribute-selector branch: the current character is `[`.
    #[verifier::rlimit(40)]
    fn attribute_token(&mut self) -> (r: Option<Result<SelectorToken, SelectorError>>)
        requires
            old(self).wf(),
            old(self).spec_pos() < old(self).spec_text().len(),
            old(self).spec_text()[old(self).spec_pos()] == '[',
            !old(self).spec_finished(),
        ensures
            final(self).wf(),
            final(self).spec_text() == old(self).spec_text(),
            ({
                let st = spec_attribute_token(old(self).spec_text(), old(self).spec_pos());
                final(self).spec_pos() == st.pos && final(self).spec_after_combinator()
                    == st.after && final(self).spec_finished() == st.fin && item_models(r, st.item)
            }),
    {
        proof {
            assert(self.text@.len() == self.text.len());
        }
        self.after_combinator = false;
        self.pos = self.pos + 1;
        let name = match self.consume_ident() {
            Ok(v) => v,
            Err(e) => {
                self.finished = true;
                return Some(Err(e));
            },
        };
        if self.pos >= self.text.len() {
            self.finished = true;
            return Some(Err(SelectorError::UnexpectedEnd));
        }
        let opc = self.text[self.pos];
        let op: AttributeOperator = if opc == ']' {
            AttributeOperator::Exists
        } else if opc == '=' {
            self.pos = self.pos + 1;
            match self.consume_string() {
                Ok(v) => AttributeOperator::Matches(v),
                Err(e) => {
                    self.finished = true;
                    return Some(Err(e));
                },
            }
        } else if opc == '~' {
            self.pos = self.pos + 1;
            if !(self.pos < self.text.len() && self.text[self.pos] == '=') {
                self.finished = true;
                return Some(Err(SelectorError::InvalidAttributeSelector));
            }
            self.pos = self.pos + 1;
            match self.consume_string() {
                Ok(v) => AttributeOperator::Contains(v),
                Err(e) => {
                    self.finished = true;
                    return Some(Err(e));
                },
            }
        } else if opc == '|' {
            self.pos = self.pos + 1;
            if !(self.pos < self.text.len() && self.text[self.pos] == '=') {
                self.finished = true;
                return Some(Err(SelectorError::InvalidAttributeSelector));
            }
            self.pos = self.pos + 1;
            match self.consume_string() {
                Ok(v) => AttributeOperator::StartsWith(v),
                Err(e) => {
                    self.finished = true;
                    return Some(Err(e));
                },
            }
        } else {
            self.finished = true;
            return Some(Err(SelectorError::InvalidAttributeSelector));
        };
        if !(self.pos < self.text.len() && self.text[self.pos] == ']') {
            if self.pos >= self.text.len() {
                self.finished = true;
                return Some(Err(SelectorError::UnexpectedEnd));
            }
            self.finished = true;
            return Some(Err(SelectorError::InvalidAttributeSelector));
        }
        self.pos = self.pos + 1;
        Some(Ok(SelectorToken::AttributeSelector(name, op)))
    }

    /// Produces the next token, or `None` at the end of the input.
    /// The result and the new state are exactly those of
    /// `spec_next_token` on the old state.
    #[verifier::rlimit(60)]
    pub fn next_token(&mut self) -> (r: Option<Result<SelectorToken, SelectorError>>)
        requires
            old(self).wf(),
        ensures
            final(self).wf(),
            final(self).spec_text() == old(self).spec_text(),
            ({
                let st = spec_next_token(
                    old(self).spec_text(),
                    old(self).spec_pos(),
                    old(self).spec_after_combinator(),
                    old(self).spec_finished(),
                );
                final(self).spec_pos() == st.pos && final(self).spec_after_combinator()
                    == st.after && final(self).spec_finished() == st.fin && item_models(r, st.item)
            }),
        decreases
                old(self).spec_text().len() - old(self).spec_pos(),
                (if old(self).spec_finished() { 0int } else { 1int }),
                (if old(self).spec_after_combinator() { 1int } else { 0int }),
    {
        if self.finished || self.pos >= self.text.len() {
            if self.after_combinator {
                self.after_combinator = false;
                return Some(Err(SelectorError::SelectorMissing));
            }
            return None;
        }
        let c = self.text[self.pos];
        if c == '*' {
            if !self.after_combinator {
                self.finished = true;
                return Some(Err(SelectorError::UnexpectedSelector));
            }
            self.after_combinator = false;
            self.pos = self.pos + 1;
            Some(Ok(SelectorToken::UniversalSelector))
        } else if c == '#' {
            self.after_combinator = false;
            self.pos = self.pos + 1;
            match self.consume_ident() {
                Ok(id) => Some(Ok(SelectorToken::IdSelector(id))),
                Err(e) => {
                    self.finished = true;
                    Some(Err(e))
                },
            }
        } else if c == '.' {
            self.after_combinator = false;
            self.pos = self.pos + 1;
            match self.consume_ident() {
                Ok(id) => Some(Ok(SelectorToken::ClassSelector(id))),
                Err(e) => {
                    self.finished = true;
                    Some(Err(e))
                },
            }
        } else if c == '[' {
            self.attribute_token()
        } else if c == ':' {
            self.after_combinator = false;
            self.pos = self.pos + 1;
            match self.consume_ident() {
                Ok(id) => Some(Ok(SelectorToken::PseudoClass(id))),
                Err(e) => {
                    self.finished = true;
                    Some(Err(e))
                },
            }
        } else if c == '>' {
            if self.after_combinator {
                self.after_combinator = false;
                self.finished = true;
                return Some(Err(SelectorError::UnexpectedCombinator));
            }
            self.pos = self.pos + 1;
            self.after_combinator = true;
            Some(Ok(SelectorToken::ChildCombinator))
        } else if c == '+' {
            if self.after_combinator {
                self.after_combinator = false;
                self.finished = true;
                return Some(Err(SelectorError::UnexpectedCombinator));
            }
            self.pos = self.pos + 1;
            self.after_combinator = true;
            Some(Ok(SelectorToken::AdjacentCombinator))
        } else if is_space(c) {
            let ghost p0 = self.pos as int;
            self.skip_spaces();
            proof {
                assert(space_end(self.text@, p0) == space_end(self.text@, p0 + 1));
                lemma_space_end_bounds(self.text@, p0 + 1);
            }
            if self.after_combinator {
                return self.next_token();
            }
            let ghost p1 = self.pos as int;
            let cs = self.skip_cs();
            proof {
                lemma_skip_comments_spaces_bounds(self.text@, p1);
            }
            if let Err(e) = cs {
                self.finished = true;
                return Some(Err(e));
            }
            if self.pos >= self.text.len() {
                return self.next_token();
            }
            let c2 = self.text[self.pos];
            if c2 == '>' || c2 == '+' || c2 == ',' || c2 == '{' {
                return self.next_token();
            }
            self.after_combinator = true;
            Some(Ok(SelectorToken::DescendantCombinator))
        } else if c == '/' {
            if self.pos < self.text.len() && self.pos + 1 < self.text.len()
                && self.text[self.pos + 1] == '*' {
                let ghost p0 = self.pos as int;
                let r = self.skip_comment();
                if let Err(e) = r {
                    self.finished = true;
                    return Some(Err(e));
                }
                proof {
                    lemma_comment_close_bounds(self.text@, p0 + 2);
                }
            } else {
                self.finished = true;
            }
            self.next_token()
        } else if c == ',' || c == '{' {
            self.finished = true;
            self.next_token()
        } else {
            match self.consume_ident() {
                Ok(id) => {
                    if !self.after_combinator {
                        self.finished = true;
                        return Some(Err(SelectorError::UnexpectedSelector));
                    }
                    self.after_combinator = false;
                    Some(Ok(SelectorToken::TypeSelector(id)))
                },
                Err(e) => {
                    self.finished = true;
                    Some(Err(e))
                },
            }
        }
    }
}

/// The type part of a simple selector: a named type or `*`.
#[derive(Clone, Debug, PartialEq, Eq)]
pub enum SimpleSelectorType {
    Type(String),
    Universal,
}

/// The mathematical value of a `SimpleSelectorType`.
pub enum SimpleSelectorTypeModel {
    Type(Seq<char>),
    Universal,
}

impl SimpleSelectorType {
    pub open spec fn model(self) -> SimpleSelectorTypeModel {
        match self {
            SimpleSelectorType::Type(t) => SimpleSelectorTypeModel::Type(t@),
            SimpleSelectorType::Universal => SimpleSelectorTypeModel::Universal,
        }
    }
}

/// A sub-selector of a simple selector.
#[derive(Clone, Debug, PartialEq, Eq)]
pub enum SubSelector {
    Attribute(String, AttributeOperator),
    PseudoClass(String),
}

/// The mathematical value of a `SubSelector`.
pub enum SubSelectorModel {
    Attribute(Seq<char>, AttributeOperatorModel),
    PseudoClass(Seq<char>),
}

impl SubSelector {
    pub open spec fn model(self) -> SubSelectorModel {
        match self {
            SubSelector::Attribute(n, op) => SubSelectorModel::Attribute(n@, op.model()),
            SubSelector::PseudoClass(n) => SubSelectorModel::PseudoClass(n@),
        }
    }
}

/// A simple selector: a type (or `*`) with its sub-selectors.
#[derive(Clone, Debug, PartialEq, Eq)]
pub struct SimpleSelector {
    pub kind: SimpleSelectorType,
    pub subselectors: Vec<SubSelector>,
}

/// The mathematical value of a `SimpleSelector`.
pub struct SimpleSelectorModel {
    pub kind: SimpleSelectorTypeModel,
    pub subselectors: Seq<SubSelectorModel>,
}

impl SimpleSelector {
    pub open spec fn model(self) -> SimpleSelectorModel {
        SimpleSelectorModel {
            kind: self.kind.model(),
            subselectors: Seq::new(self.subselectors@.len(), |i: int| self.subselectors@[i].model()),
        }
    }
}

/// A combinator standing before a simple selector.
#[derive(Clone, Copy, Debug, PartialEq, Eq, Structural)]
pub enum Combinator {
    /// No combinator stands before the component (the first one, or a
    /// continuation of the previous compound).
    NoCombinator,
    Descendant,
    Child,
    AdjacentSibling,
}

/// One component of a selector: the combinator before it and the
/// simple selector itself.
#[derive(Clone, Debug, PartialEq, Eq)]
pub struct Component {
    pub combinator: Combinator,
    pub selector: SimpleSelector,
}

/// The mathematical value of a `Component`.
pub struct ComponentModel {
    pub combinator: Combinator,
    pub selector: SimpleSelectorModel,
}

impl Component {
    pub open spec fn model(self) -> ComponentModel {
        ComponentModel { combinator: self.combinator, selector: self.selector.model() }
    }
}

/// A parsed selector.
#[derive(Clone, Debug, PartialEq, Eq)]
pub struct Selector {
    pub components: Vec<Component>,
}

/// The mathematical value of a `Selector`.
pub struct SelectorModel {
    pub components: Seq<ComponentModel>,
}

impl Selector {
    pub open spec fn model(self) -> SelectorModel {
        SelectorModel {
            components: Seq::new(self.components@.len(), |i: int| self.components@[i].model()),
        }
    }
}

pub open spec fn components_model(s: Seq<Component>) -> Seq<ComponentModel> {
    Seq::new(s.len(), |i: int| s[i].model())
}

/// Attaches a sub-selector: to the last component when no combinator
/// is pending, else to a fresh universal component.
pub open spec fn spec_add_sub(
    comps: Seq<ComponentModel>,
    comb: Combinator,
    sub: SubSelectorModel,
) -> (Seq<ComponentModel>, Combinator) {
    if comb == Combinator::NoCombinator && comps.len() > 0 {
        let last = comps[comps.len() - 1];
        let updated = ComponentModel {
            combinator: last.combinator,
            selector: SimpleSelectorModel {
                kind: last.selector.kind,
                subselectors: last.selector.subselectors.push(sub),
            },
        };
        (comps.update(comps.len() - 1, updated), comb)
    } else {
        let fresh = ComponentModel {
            combinator: comb,
            selector: SimpleSelectorModel {
                kind: SimpleSelectorTypeModel::Universal,
                subselectors: seq![sub],
            },
        };
        (comps.push(fresh), Combinator::NoCombinator)
    }
}

/// How one token changes the parser state.
pub open spec fn spec_parse_step(
    comps: Seq<ComponentModel>,
    comb: Combinator,
    tok: TokenModel,
) -> (Seq<ComponentModel>, Combinator) {
    match tok {
        TokenModel::Universal => (
            comps.push(
                ComponentModel {
                    combinator: comb,
                    selector: SimpleSelectorModel {
                        kind: SimpleSelectorTypeModel::Universal,
                        subselectors: Seq::empty(),
                    },
                },
            ),
            Combinator::NoCombinator,
        ),
        TokenModel::Type(t) => (
            comps.push(
                ComponentModel {
                    combinator: comb,
                    selector: SimpleSelectorModel {
                        kind: SimpleSelectorTypeModel::Type(t),
                        subselectors: Seq::empty(),
                    },
                },
            ),
            Combinator::NoCombinator,
        ),
        TokenModel::Class(c) => spec_add_sub(
            comps,
            comb,
            SubSelectorModel::Attribute("class"@, AttributeOperatorModel::Contains(c)),
        ),
        TokenModel::Id(i) => spec_add_sub(
            comps,
            comb,
            SubSelectorModel::Attribute("id"@, AttributeOperatorModel::Matches(i)),
        ),
        TokenModel::Attribute(n, op) => spec_add_sub(comps, comb, SubSelectorModel::Attribute(n, op)),
        TokenModel::Pseudo(pn) => spec_add_sub(comps, comb, SubSelectorModel::PseudoClass(pn)),
        TokenModel::Descendant => (comps, Combinator::Descendant),
        TokenModel::Child => (comps, Combinator::Child),
        TokenModel::Adjacent => (comps, Combinator::AdjacentSibling),
    }
}

/// What parsing yields: the selector (`None` on a parse error, an
/// empty input, or a leading combinator) and how many characters
/// were consumed.
pub struct ParseOut {
    pub sel: Option<SelectorModel>,
    pub consumed: int,
}

pub open spec fn spec_finalize(comps: Seq<ComponentModel>, consumed: int) -> ParseOut {
    if comps.len() == 0 {
        ParseOut { sel: None, consumed }
    } else if comps[0].combinator != Combinator::NoCombinator {
        ParseOut { sel: None, consumed }
    } else {
        ParseOut { sel: Some(SelectorModel { components: comps }), consumed }
    }
}

/// Runs the token grammar from a tokenizer state, folding each token
/// into the component list.
pub open spec fn spec_parse_from(
    text: Seq<char>,
    pos: int,
    after: bool,
    fin: bool,
    comps: Seq<ComponentModel>,
    comb: Combinator,
) -> ParseOut
    decreases
            text.len() - pos,
            (if fin { 0int } else { 1int }),
            (if after { 1int } else { 0int }),
    via spec_parse_from_decreases
{
    let st = spec_next_token(text, pos, after, fin);
    match st.item {
        Option::None => spec_finalize(comps, st.pos),
        Option::Some(Err(_)) => ParseOut { sel: None, consumed: st.pos },
        Option::Some(Ok(t)) => {
            let next = spec_parse_step(comps, comb, t);
            spec_parse_from(text, st.pos, st.after, st.fin, next.0, next.1)
        },
    }
}

#[via_fn]
proof fn spec_parse_from_decreases(
    text: Seq<char>,
    pos: int,
    after: bool,
    fin: bool,
    comps: Seq<ComponentModel>,
    comb: Combinator,
) {
    if 0 <= pos <= text.len() {
        lemma_next_token_progress(text, pos, after, fin);
    } else {
        lemma_next_token_out_of_range(text, pos, after, fin);
    }
}

/// Out of range, the tokenizer state is in the exhausted branch and
/// produces no `Ok` token.
proof fn lemma_next_token_out_of_range(text: Seq<char>, pos: int, after: bool, fin: bool)
    requires
        !(0 <= pos <= text.len()),
    ensures
        !(spec_next_token(text, pos, after, fin).item matches Some(r) && r is Ok),
{
}

/// The whole-text parse: the contract of `parse`.
pub open spec fn spec_parse(text: Seq<char>) -> ParseOut {
    spec_parse_from(text, 0, true, false, Seq::empty(), Combinator::NoCombinator)
}

/// Each produced token strictly shrinks the tokenizer's measure, so
/// tokenizing and parsing terminate.
proof fn lemma_next_token_progress(text: Seq<char>, pos: int, after: bool, fin: bool)
    requires
        0 <= pos <= text.len(),
    ensures
        ({
            let st = spec_next_token(text, pos, after, fin);
            0 <= st.pos <= text.len() && (st.item is Some ==> (st.pos > pos || (st.pos == pos
                && !fin && st.fin) || (st.pos == pos && fin == st.fin && after && !st.after)))
                && (st.item is None ==> (st.fin || st.pos >= text.len()) && !st.after)
        }),
    decreases
            text.len() - pos,
            (if fin { 0int } else { 1int }),
            (if after { 1int } else { 0int }),
{
    if fin || pos >= text.len() || pos < 0 {
    } else {
        let c = text[pos];
        lemma_ident_end_bounds(text, pos);
        if pos + 1 <= text.len() {
            lemma_ident_end_bounds(text, pos + 1);
        }
        if c == '[' {
            lemma_attribute_token_progress(text, pos);
        } else if is_space_char(c) {
            assert(space_end(text, pos) == space_end(text, pos + 1));
            lemma_space_end_bounds(text, pos + 1);
            let p = space_end(text, pos);
            if after {
                lemma_next_token_progress(text, p, after, fin);
            } else {
                lemma_skip_comments_spaces_bounds(text, p);
                let cs = skip_comments_spaces(text, p);
                if cs.err is None {
                    let p2 = cs.pos;
                    if p2 >= text.len() || text[p2] == '>' || text[p2] == '+' || text[p2] == ','
                        || text[p2] == '{' {
                        lemma_next_token_progress(text, p2, after, fin);
                    }
                }
            }
        } else if c == '/' {
            if pos + 1 < text.len() && text[pos + 1] == '*' {
                lemma_comment_close_bounds(text, pos + 2);
                let e = comment_close(text, pos + 2);
                if e != text.len() {
                    lemma_next_token_progress(text, e + 2, after, fin);
                }
            } else {
                lemma_next_token_progress(text, pos, after, true);
            }
        } else if c == ',' || c == '{' {
            lemma_next_token_progress(text, pos, after, true);
        }
    }
}

/// Bounds and progress of the attribute-selector branch.
proof fn lemma_attribute_token_progress(text: Seq<char>, pos: int)
    requires
        0 <= pos < text.len(),
    ensures
        ({
            let st = spec_attribute_token(text, pos);
            pos < st.pos <= text.len()
        }),
{
    lemma_ident_end_bounds(text, pos + 1);
    let e = ident_end(text, pos + 1);
    if e != pos + 1 && e < text.len() {
        if text[e] == '=' {
            lemma_attribute_value_progress(text, e + 1);
        } else if (text[e] == '~' || text[e] == '|') && e + 1 < text.len() && text[e + 1] == '=' {
            lemma_attribute_value_progress(text, e + 2);
        }
    }
}

proof fn lemma_attribute_value_progress(text: Seq<char>, pos: int)
    requires
        0 <= pos <= text.len(),
    ensures
        forall|name: Seq<char>, shape: AttributeValueShape|
            ({
                let st = #[trigger] spec_attribute_value(text, name, pos, shape);
                pos <= st.pos <= text.len()
            }),
{
    lemma_ident_end_bounds(text, pos);
    if pos < text.len() {
        lemma_quote_end_bounds(text, pos + 1, text[pos]);
    }
}

/// Attaches a sub-selector to the component list as `spec_add_sub`
/// says.
fn add_sub(components: &mut Vec<Component>, combinator: Combinator, sub: SubSelector) -> (r:
    Combinator)
    ensures
        ({
            let out = spec_add_sub(components_model(old(components)@), combinator, sub.model());
            components_model(final(components)@) == out.0 && r == out.1
        }),
{
    if combinator == Combinator::NoCombinator && components.len() > 0 {
        let mut last = components.pop().unwrap();
        last.selector.subselectors.push(sub);
        components.push(last);
        proof {
            let out = spec_add_sub(components_model(old(components)@), combinator, sub.model());
            assert(components_model(components@)[components@.len() - 1].selector.subselectors
                =~= out.0[components@.len() - 1].selector.subselectors);
            assert(components_model(components@)[components@.len() - 1] == out.0[components@.len()
                - 1]);
            assert(components_model(components@) =~= out.0);
        }
        combinator
    } else {
        let mut subs: Vec<SubSelector> = Vec::new();
        subs.push(sub);
        components.push(
            Component {
                combinator,
                selector: SimpleSelector { kind: SimpleSelectorType::Universal, subselectors: subs },
            },
        );
        proof {
            let out = spec_add_sub(components_model(old(components)@), combinator, sub.model());
            assert(components_model(components@)[components@.len() - 1].selector.subselectors
                =~= out.0[components@.len() - 1].selector.subselectors);
            assert(components_model(components@)[components@.len() - 1] == out.0[components@.len()
                - 1]);
            assert(components_model(components@) =~= out.0);
        }
        Combinator::NoCombinator
    }
}

/// Parses one selector from the start of `text`, stopping at the end
/// of the input, at `,` or at `{`.  Returns the selector (`None` on a
/// parse error) and how many characters were consumed, so a caller
/// can resynchronize after an offending rule.
pub fn parse(text: &str) -> (r: (Option<Selector>, usize))
    ensures
        ({
            let out = spec_parse(text@);
            r.1 == out.consumed && (match r.0 {
                Option::Some(sel) => out.sel matches Some(m) && sel.model() == m,
                Option::None => out.sel is None,
            })
        }),
{
    let mut tokenizer = SelectorTokenizer::new(text);
    let mut components: Vec<Component> = Vec::new();
    let mut combinator = Combinator::NoCombinator;
    proof {
        assert(components_model(components@) =~= Seq::<ComponentModel>::empty());
    }
    loop
        invariant
            tokenizer.wf(),
            tokenizer.spec_text() == text@,
            spec_parse_from(
                text@,
                tokenizer.spec_pos(),
                tokenizer.spec_after_combinator(),
                tokenizer.spec_finished(),
                components_model(components@),
                combinator,
            ) == spec_parse(text@),
        ensures
            ({
                let out = spec_parse(text@);
                out.consumed == tokenizer.spec_pos() && out.sel == spec_finalize(
                    components_model(components@),
                    tokenizer.spec_pos(),
                ).sel
            }),
        decreases
                tokenizer.spec_text().len() - tokenizer.spec_pos(),
                (if tokenizer.spec_finished() { 0int } else { 1int }),
                (if tokenizer.spec_after_combinator() { 1int } else { 0int }),
    {
        proof {
            lemma_next_token_progress(
                text@,
                tokenizer.spec_pos(),
                tokenizer.spec_after_combinator(),
                tokenizer.spec_finished(),
            );
        }
        let ghost comps0 = components_model(components@);
        let ghost comb0 = combinator;
        let item = tokenizer.next_token();
        match item {
            Option::None => {
                proof {
                    assert(spec_parse_from(
                        text@,
                        tokenizer.spec_pos(),
                        tokenizer.spec_after_combinator(),
                        tokenizer.spec_finished(),
                        components_model(components@),
                        combinator,
                    ) == spec_finalize(components_model(components@), tokenizer.spec_pos()));
                }
                break ;
            },
            Option::Some(Err(_)) => {
                return (None, tokenizer.pos());
            },
            Option::Some(Ok(token)) => {
                let ghost tm = token.model();
                match token {
                    SelectorToken::UniversalSelector => {
                        components.push(
                            Component {
                                combinator,
                                selector: SimpleSelector {
                                    kind: SimpleSelectorType::Universal,
                                    subselectors: Vec::new(),
                                },
                            },
                        );
                        combinator = Combinator::NoCombinator;
                        proof {
                            let last = components@.len() - 1;
                            assert(components_model(components@)[last].selector.subselectors
                                =~= spec_parse_step(comps0, comb0, tm).0[last].selector.subselectors);
                            assert(components_model(components@) =~= spec_parse_step(
                                comps0,
                                comb0,
                                tm,
                            ).0);
                        }
                    },
                    SelectorToken::TypeSelector(t) => {
                        components.push(
                            Component {
                                combinator,
                                selector: SimpleSelector {
                                    kind: SimpleSelectorType::Type(t),
                                    subselectors: Vec::new(),
                                },
                            },
                        );
                        combinator = Combinator::NoCombinator;
                        proof {
                            let last = components@.len() - 1;
                            assert(components_model(components@)[last].selector.subselectors
                                =~= spec_parse_step(comps0, comb0, tm).0[last].selector.subselectors);
                            assert(components_model(components@) =~= spec_parse_step(
                                comps0,
                                comb0,
                                tm,
                            ).0);
                        }
                    },
                    SelectorToken::ClassSelector(c) => {
                        combinator = add_sub(
                            &mut components,
                            combinator,
                            SubSelector::Attribute(
                                String::from_str("class"),
                                AttributeOperator::Contains(c),
                            ),
                        );
                    },
                    SelectorToken::IdSelector(i) => {
                        combinator = add_sub(
                            &mut components,
                            combinator,
                            SubSelector::Attribute(
                                String::from_str("id"),
                                AttributeOperator::Matches(i),
                            ),
                        );
                    },
                    SelectorToken::AttributeSelector(n, op) => {
                        combinator = add_sub(
                            &mut components,
                            combinator,
                            SubSelector::Attribute(n, op),
                        );
                    },
                    SelectorToken::PseudoClass(pn) => {
                        combinator = add_sub(&mut components, combinator, SubSelector::PseudoClass(pn));
                    },
                    SelectorToken::DescendantCombinator => {
                        combinator = Combinator::Descendant;
                    },
                    SelectorToken::ChildCombinator => {
                        combinator = Combinator::Child;
                    },
                    SelectorToken::AdjacentCombinator => {
                        combinator = Combinator::AdjacentSibling;
                    },
                }
            },
        }
    }
    let consumed = tokenizer.pos();
    if components.len() == 0 {
        return (None, consumed);
    }
    if components[0].combinator != Combinator::NoCombinator {
        proof {
            assert(components_model(components@)[0] == components@[0].model());
        }
        return (None, consumed);
    }
    proof {
        assert(components_model(components@)[0] == components@[0].model());
    }
    let result = Selector { components };
    proof {
        assert(result.model().components =~= components_model(result.components@));
    }
    (Some(result), consumed)
}

/// The kind of a rule selector: its tag, id or class.
#[derive(Clone, Debug, PartialEq, Eq)]
pub enum SelectorKindInfo {
    Tag(String),
    Id(String),
    Class(String),
}

/// The type name of a selector: the type of the first component that
/// has one.
pub open spec fn spec_tag_name(comps: Seq<ComponentModel>) -> Option<Seq<char>>
    decreases comps.len(),
{
    if comps.len() == 0 {
        None
    } else {
        match comps[0].selector.kind {
            SimpleSelectorTypeModel::Type(t) => Some(t),
            SimpleSelectorTypeModel::Universal => spec_tag_name(comps.drop_first()),
        }
    }
}

/// The class names among a component's sub-selectors, in order.
pub open spec fn classes_in_subs(subs: Seq<SubSelectorModel>) -> Seq<Seq<char>>
    decreases subs.len(),
{
    if subs.len() == 0 {
        Seq::empty()
    } else {
        classes_in_subs(subs.drop_last()) + (match subs.last() {
            SubSelectorModel::Attribute(n, AttributeOperatorModel::Contains(v)) => if n
                == "class"@ {
                seq![v]
            } else {
                Seq::empty()
            },
            _ => Seq::empty(),
        })
    }
}

/// All class names of a selector, in order.
pub open spec fn spec_class_list(comps: Seq<ComponentModel>) -> Seq<Seq<char>>
    decreases comps.len(),
{
    if comps.len() == 0 {
        Seq::empty()
    } else {
        spec_class_list(comps.drop_last()) + classes_in_subs(comps.last().selector.subselectors)
    }
}

/// The pseudo-class names among a component's sub-selectors, in order.
pub open spec fn pseudos_in_subs(subs: Seq<SubSelectorModel>) -> Seq<Seq<char>>
    decreases subs.len(),
{
    if subs.len() == 0 {
        Seq::empty()
    } else {
        pseudos_in_subs(subs.drop_last()) + (match subs.last() {
            SubSelectorModel::PseudoClass(n) => seq![n],
            _ => Seq::empty(),
        })
    }
}

/// All pseudo-class names of a selector, in order.
pub open spec fn spec_pseudo_classes(comps: Seq<ComponentModel>) -> Seq<Seq<char>>
    decreases comps.len(),
{
    if comps.len() == 0 {
        Seq::empty()
    } else {
        spec_pseudo_classes(comps.drop_last()) + pseudos_in_subs(
            comps.last().selector.subselectors,
        )
    }
}

/// How many sub-selectors of a component are id attributes.
pub open spec fn subs_id_count(subs: Seq<SubSelectorModel>) -> nat
    decreases subs.len(),
{
    if subs.len() == 0 {
        0
    } else {
        subs_id_count(subs.drop_last()) + (if subs.last() matches SubSelectorModel::Attribute(n, _)
            && n == "id"@ {
            1nat
        } else {
            0nat
        })
    }
}

/// How many sub-selectors of a component are classes, other
/// attributes or pseudo-classes (everything but id attributes).
pub open spec fn subs_other_count(subs: Seq<SubSelectorModel>) -> nat
    decreases subs.len(),
{
    if subs.len() == 0 {
        0
    } else {
        subs_other_count(subs.drop_last()) + (if subs.last() matches SubSelectorModel::Attribute(
            n,
            _,
        ) && n == "id"@ {
            0nat
        } else {
            1nat
        })
    }
}

/// Total id weight of a selector.
pub open spec fn spec_id_count(comps: Seq<ComponentModel>) -> nat
    decreases comps.len(),
{
    if comps.len() == 0 {
        0
    } else {
        spec_id_count(comps.drop_last()) + subs_id_count(comps.last().selector.subselectors)
    }
}

/// Total class/attribute/pseudo-class weight of a selector.
pub open spec fn spec_class_count(comps: Seq<ComponentModel>) -> nat
    decreases comps.len(),
{
    if comps.len() == 0 {
        0
    } else {
        spec_class_count(comps.drop_last()) + subs_other_count(comps.last().selector.subselectors)
    }
}

/// Total type weight of a selector.
pub open spec fn spec_tag_count(comps: Seq<ComponentModel>) -> nat
    decreases comps.len(),
{
    if comps.len() == 0 {
        0
    } else {
        spec_tag_count(comps.drop_last()) + (if comps.last().selector.kind
            matches SimpleSelectorTypeModel::Type(_) {
            1nat
        } else {
            0nat
        })
    }
}

/// A count clipped to one specificity axis.
pub open spec fn axis(n: nat) -> nat {
    if n > 255 {
        255nat
    } else {
        n
    }
}

impl Selector {
    /// Parses a selector from a string.
    ///
    /// Parsing stops at the end of the input, at `,` or at `{`.
    pub fn parse(text: &str) -> (r: Option<Selector>)
        ensures
            (match r {
                Option::Some(sel) => spec_parse(text@).sel matches Some(m) && sel.model() == m,
                Option::None => spec_parse(text@).sel is None,
            }),
    {
        parse(text).0
    }

    /// The full selector type name: the type of the first component
    /// that has one.
    pub fn tag_name(&self) -> (r: Option<String>)
        ensures
            (match r {
                Option::Some(t) => spec_tag_name(self.model().components) == Some(t@),
                Option::None => spec_tag_name(self.model().components) is None,
            }),
    {
        let n = self.components.len();
        proof {
            assert(self.model().components.skip(0int) =~= self.model().components);
        }
        for i in 0..n
            invariant
                n == self.components@.len(),
                spec_tag_name(self.model().components.skip(i as int)) == spec_tag_name(
                    self.model().components,
                ),
                forall|j: int| 0 <= j < i ==> !((#[trigger] self.model().components[j]).selector.kind
                    matches SimpleSelectorTypeModel::Type(_)),
        {
            proof {
                assert(self.model().components.skip(i as int).drop_first() =~= self.model()
                    .components.skip(i + 1));
                assert(self.model().components.skip(i as int)[0] == self.model().components[
                    i as int]);
            }
            match &self.components[i].selector.kind {
                SimpleSelectorType::Type(ident) => {
                    return Some(ident.clone());
                },
                SimpleSelectorType::Universal => {
                },
            }
        }
        proof {
            assert(self.model().components.skip(n as int) =~= Seq::<ComponentModel>::empty());
        }
        None
    }

    /// All class names of the selector, in order.
    pub fn class_list(&self) -> (r: Vec<String>)
        ensures
            r.deep_view() == spec_class_list(self.model().components),
    {
        let mut classes: Vec<String> = Vec::new();
        let key = String::from_str("class");
        let n = self.components.len();
        proof {
            assert(self.model().components.take(0int) =~= Seq::<ComponentModel>::empty());
        }
        for i in 0..n
            invariant
                n == self.components@.len(),
                key@ == "class"@,
                classes.deep_view() == spec_class_list(self.model().components.take(i as int)),
        {
            let subs = &self.components[i].selector.subselectors;
            let m = subs.len();
            proof {
                assert(self.components@[i as int].selector.model().subselectors.take(0int)
                    =~= Seq::<SubSelectorModel>::empty());
            }
            for j in 0..m
                invariant
                    n == self.components@.len(),
                    i < n,
                    key@ == "class"@,
                    m == subs@.len(),
                    subs == &self.components@[i as int].selector.subselectors,
                    classes.deep_view() == spec_class_list(
                        self.model().components.take(i as int),
                    ) + classes_in_subs(
                        self.components@[i as int].selector.model().subselectors.take(j as int),
                    ),
            {
                let ghost pre = classes.deep_view();
                let ghost subsm = self.components@[i as int].selector.model().subselectors;
                match &subs[j] {
                    SubSelector::Attribute(name, AttributeOperator::Contains(value)) => {
                        if name.eq(&key) {
                            classes.push(value.clone());
                        }
                    },
                    _ => {
                    },
                }
                proof {
                    assert(subsm.take(j + 1).drop_last() =~= subsm.take(j as int));
                    assert(subsm.take(j + 1).last() == subsm[j as int]);
                    assert(subsm[j as int] == subs@[j as int].model());
                    match subsm[j as int] {
                        SubSelectorModel::Attribute(nm, AttributeOperatorModel::Contains(v)) => {
                            if nm == "class"@ {
                                assert(classes.deep_view() =~= pre.push(v));
                            }
                        },
                        _ => {},
                    }
                    assert(classes.deep_view() =~= spec_class_list(
                        self.model().components.take(i as int),
                    ) + classes_in_subs(subsm.take(j + 1)));
                }
            }
            proof {
                let cm = self.model().components;
                assert(cm.take(i + 1).drop_last() =~= cm.take(i as int));
                assert(cm.take(i + 1).last() == cm[i as int]);
                assert(self.components@[i as int].selector.model().subselectors.take(m as int)
                    =~= cm[i as int].selector.subselectors);
            }
        }
        proof {
            assert(self.model().components.take(n as int) =~= self.model().components);
        }
        classes
    }

    /// All pseudo-class names of the selector, in order.
    pub fn pseudo_classes(&self) -> (r: Vec<String>)
        ensures
            r.deep_view() == spec_pseudo_classes(self.model().components),
    {
        let mut pseudos: Vec<String> = Vec::new();
        let n = self.components.len();
        proof {
            assert(self.model().components.take(0int) =~= Seq::<ComponentModel>::empty());
        }
        for i in 0..n
            invariant
                n == self.components@.len(),
                pseudos.deep_view() == spec_pseudo_classes(
                    self.model().components.take(i as int),
                ),
        {
            let subs = &self.components[i].selector.subselectors;
            let m = subs.len();
            proof {
                assert(self.components@[i as int].selector.model().subselectors.take(0int)
                    =~= Seq::<SubSelectorModel>::empty());
            }
            for j in 0..m
                invariant
                    n == self.components@.len(),
                    i < n,
                    m == subs@.len(),
                    subs == &self.components@[i as int].selector.subselectors,
                    pseudos.deep_view() == spec_pseudo_classes(
                        self.model().components.take(i as int),
                    ) + pseudos_in_subs(
                        self.components@[i as int].selector.model().subselectors.take(j as int),
                    ),
            {
                let ghost pre = pseudos.deep_view();
                let ghost subsm = self.components@[i as int].selector.model().subselectors;
                match &subs[j] {
                    SubSelector::PseudoClass(name) => {
                        pseudos.push(name.clone());
                    },
                    _ => {
                    },
                }
                proof {
                    assert(subsm.take(j + 1).drop_last() =~= subsm.take(j as int));
                    assert(subsm.take(j + 1).last() == subsm[j as int]);
                    assert(subsm[j as int] == subs@[j as int].model());
                    match subsm[j as int] {
                        SubSelectorModel::PseudoClass(nm) => {
                            assert(pseudos.deep_view() =~= pre.push(nm));
                        },
                        _ => {},
                    }
                    assert(pseudos.deep_view() =~= spec_pseudo_classes(
                        self.model().components.take(i as int),
                    ) + pseudos_in_subs(subsm.take(j + 1)));
                }
            }
            proof {
                let cm = self.model().components;
                assert(cm.take(i + 1).drop_last() =~= cm.take(i as int));
                assert(cm.take(i + 1).last() == cm[i as int]);
                assert(self.components@[i as int].selector.model().subselectors.take(m as int)
                    =~= cm[i as int].selector.subselectors);
            }
        }
        proof {
            assert(self.model().components.take(n as int) =~= self.model().components);
        }
        pseudos
    }

    /// The selector's specificity: id weight, class/attribute weight
    /// and type weight, each axis saturating at `u8::MAX`.
    pub fn specificity(&self) -> (r: [u8; 3])
        ensures
            r@[0] == axis(spec_id_count(self.model().components)),
            r@[1] == axis(spec_class_count(self.model().components)),
            r@[2] == axis(spec_tag_count(self.model().components)),
    {
        let mut ids: u8 = 0;
        let mut others: u8 = 0;
        let mut tags: u8 = 0;
        let key = String::from_str("id");
        let n = self.components.len();
        proof {
            assert(self.model().components.take(0int) =~= Seq::<ComponentModel>::empty());
        }
        for i in 0..n
            invariant
                n == self.components@.len(),
                key@ == "id"@,
                ids == axis(spec_id_count(self.model().components.take(i as int))),
                others == axis(spec_class_count(self.model().components.take(i as int))),
                tags == axis(spec_tag_count(self.model().components.take(i as int))),
        {
            let ghost cm = self.model().components;
            match &self.components[i].selector.kind {
                SimpleSelectorType::Type(_) => {
                    if tags < 255 {
                        tags = tags + 1;
                    }
                },
                SimpleSelectorType::Universal => {
                },
            }
            let subs = &self.components[i].selector.subselectors;
            let m = subs.len();
            proof {
                assert(self.components@[i as int].selector.model().subselectors.take(0int)
                    =~= Seq::<SubSelectorModel>::empty());
            }
            for j in 0..m
                invariant
                    n == self.components@.len(),
                    i < n,
                    key@ == "id"@,
                    m == subs@.len(),
                    subs == &self.components@[i as int].selector.subselectors,
                    ids == axis(
                        spec_id_count(self.model().components.take(i as int)) + subs_id_count(
                            self.components@[i as int].selector.model().subselectors.take(j as int),
                        ),
                    ),
                    others == axis(
                        spec_class_count(self.model().components.take(i as int))
                            + subs_other_count(
                            self.components@[i as int].selector.model().subselectors.take(j as int),
                        ),
                    ),
            {
                let ghost subsm = self.components@[i as int].selector.model().subselectors;
                let is_id: bool = match &subs[j] {
                    SubSelector::Attribute(name, _) => name.eq(&key),
                    _ => false,
                };
                if is_id {
                    if ids < 255 {
                        ids = ids + 1;
                    }
                } else {
                    if others < 255 {
                        others = others + 1;
                    }
                }
                proof {
                    assert(subsm.take(j + 1).drop_last() =~= subsm.take(j as int));
                    assert(subsm.take(j + 1).last() == subsm[j as int]);
                    assert(subsm[j as int] == subs@[j as int].model());
                }
            }
            proof {
                let cm2 = self.model().components;
                assert(cm2.take(i + 1).drop_last() =~= cm2.take(i as int));
                assert(cm2.take(i + 1).last() == cm2[i as int]);
                assert(self.components@[i as int].selector.model().subselectors.take(m as int)
                    =~= cm2[i as int].selector.subselectors);
            }
        }
        proof {
            assert(self.model().components.take(n as int) =~= self.model().components);
        }
        [ids, others, tags]
    }

    /// The selector's rule kind: its tag or class.  An error when the
    /// selector has both a tag and a class, or neither.
    pub fn kind(&self) -> (r: Result<SelectorKindInfo, &'static str>)
        ensures
            ({
                let t = spec_tag_name(self.model().components);
                let cs = spec_class_list(self.model().components);
                match r {
                    Ok(SelectorKindInfo::Tag(tag)) => t == Some(tag@) && cs.len() == 0,
                    Ok(SelectorKindInfo::Class(c)) => t is None && cs.len() > 0 && c@ == cs[0],
                    Ok(SelectorKindInfo::Id(_)) => false,
                    Err(_) => (t is Some && cs.len() > 0) || (t is None && cs.len() == 0),
                }
            }),
    {
        let tag = self.tag_name();
        let classes = self.class_list();
        if tag.is_some() && classes.len() > 0 {
            return Err("a rule selector must not have both a tag and a class");
        }
        match tag {
            Option::Some(t) => Ok(SelectorKindInfo::Tag(t)),
            Option::None => {
                if classes.len() > 0 {
                    let c = &classes[0];
                    proof {
                        assert(classes.deep_view()[0] == classes@[0]@);
                    }
                    Ok(SelectorKindInfo::Class(c.clone()))
                } else {
                    Err("a rule selector needs at least a tag, id, or class")
                }
            },
        }
    }
}

/// The first position at or after `pos` holding a space (or the end
/// of the text).
pub open spec fn word_end(s: Seq<char>, pos: int) -> int
    decreases s.len() - pos,
{
    if pos < 0 {
        pos
    } else if pos < s.len() && s[pos] != ' ' {
        word_end(s, pos + 1)
    } else {
        pos
    }
}

proof fn lemma_word_end_bounds(s: Seq<char>, pos: int)
    requires
        0 <= pos <= s.len(),
    ensures
        pos <= word_end(s, pos) <= s.len(),
    decreases s.len() - pos,
{
    if pos < s.len() && s[pos] != ' ' {
        lemma_word_end_bounds(s, pos + 1);
    }
}

/// Whether `v` is one of the space-separated words of `s` from
/// position `pos` on.
pub open spec fn any_word_matches_from(s: Seq<char>, pos: int, v: Seq<char>) -> bool
    decreases s.len() - pos,
    via any_word_matches_from_decreases
{
    if !(0 <= pos <= s.len()) {
        false
    } else {
        let e = word_end(s, pos);
        if e >= s.len() {
            s.subrange(pos, s.len() as int) == v
        } else {
            s.subrange(pos, e) == v || any_word_matches_from(s, e + 1, v)
        }
    }
}

#[via_fn]
proof fn any_word_matches_from_decreases(s: Seq<char>, pos: int, v: Seq<char>) {
    if 0 <= pos <= s.len() {
        lemma_word_end_bounds(s, pos);
    }
}

/// Whether an attribute operator accepts the given attribute value.
pub open spec fn spec_operator_matches(op: AttributeOperatorModel, value: Seq<char>) -> bool {
    match op {
        AttributeOperatorModel::Exists => true,
        AttributeOperatorModel::Matches(v) => value == v,
        AttributeOperatorModel::Contains(v) => any_word_matches_from(value, 0, v),
        AttributeOperatorModel::StartsWith(v) => value == v || (value.len() > v.len()
            && value.subrange(0, v.len() as int) == v && value[v.len() as int] == '-'),
    }
}

/// The characters of `text`, as a vector.
pub fn str_chars(text: &str) -> (r: Vec<char>)
    ensures
        r@ == text@,
{
    let n = text.unicode_len();
    let mut cs: Vec<char> = Vec::new();
    for i in 0..n
        invariant
            n == text@.len(),
            cs@ =~= text@.subrange(0, i as int),
    {
        cs.push(text.get_char(i));
    }
    proof {
        assert(cs@ =~= text@);
    }
    cs
}

/// Whether the characters of `cs` between `start` and `end` are
/// exactly `vs`.
fn chars_eq_range(cs: &Vec<char>, start: usize, end: usize, vs: &Vec<char>) -> (r: bool)
    requires
        start <= end <= cs@.len(),
    ensures
        r == (cs@.subrange(start as int, end as int) == vs@),
{
    if end - start != vs.len() {
        proof {
            assert(cs@.subrange(start as int, end as int).len() == end - start);
        }
        return false;
    }
    for i in 0..vs.len()
        invariant
            start <= end <= cs@.len(),
            end - start == vs@.len(),
            forall|j: int| 0 <= j < i ==> cs@[start + j] == vs@[j],
    {
        if cs[start + i] != vs[i] {
            proof {
                assert(cs@.subrange(start as int, end as int)[i as int] == cs@[start + i]);
            }
            return false;
        }
    }
    proof {
        assert(cs@.subrange(start as int, end as int) =~= vs@);
    }
    true
}

impl AttributeOperator {
    /// Checks that an attribute value matches the operator.
    pub fn matches(&self, value: &str) -> (r: bool)
        ensures
            r == spec_operator_matches(self.model(), value@),
    {
        match self {
            AttributeOperator::Exists => true,
            AttributeOperator::Matches(v) => {
                let cs = str_chars(value);
                let vs = str_chars(v.as_str());
                let r = chars_eq_range(&cs, 0, cs.len(), &vs);
                proof {
                    assert(cs@.subrange(0, cs@.len() as int) =~= cs@);
                }
                r
            },
            AttributeOperator::Contains(v) => {
                let cs = str_chars(value);
                let vs = str_chars(v.as_str());
                let n = cs.len();
                let mut start: usize = 0;
                loop
                    invariant
                        n == cs@.len(),
                        cs@ == value@,
                        vs@ == v@,
                        0 <= start as int <= n as int,
                        spec_operator_matches(self.model(), value@) == any_word_matches_from(
                            cs@,
                            start as int,
                            vs@,
                        ),
                    decreases n - start,
                {
                    proof {
                        lemma_word_end_bounds(cs@, start as int);
                    }
                    let mut e = start;
                    while e < n && cs[e] != ' '
                        invariant
                            n == cs@.len(),
                            start <= e as int <= n as int,
                            word_end(cs@, e as int) == word_end(cs@, start as int),
                        decreases n - e,
                    {
                        e = e + 1;
                    }
                    if chars_eq_range(&cs, start, e, &vs) {
                        proof {
                            if e as int >= cs@.len() {
                                assert(cs@.subrange(start as int, cs@.len() as int) == vs@);
                            }
                        }
                        return true;
                    }
                    if e == n {
                        return false;
                    }
                    start = e + 1;
                }
            },
            AttributeOperator::StartsWith(v) => {
                let cs = str_chars(value);
                let vs = str_chars(v.as_str());
                if chars_eq_range(&cs, 0, cs.len(), &vs) {
                    proof {
                        assert(cs@.subrange(0, cs@.len() as int) =~= cs@);
                    }
                    return true;
                }
                proof {
                    assert(cs@.subrange(0, cs@.len() as int) =~= cs@);
                }
                if cs.len() > vs.len() && chars_eq_range(&cs, 0, vs.len(), &vs) {
                    cs[vs.len()] == '-'
                } else {
                    false
                }
            },
        }
    }
}


/// The text form of an attribute operator with its attribute name.
pub open spec fn render_attribute(name: Seq<char>, op: AttributeOperatorModel) -> Seq<char> {
    match op {
        AttributeOperatorModel::Exists => "["@ + name + "]"@,
        AttributeOperatorModel::Matches(v) => "["@ + name + "='"@ + v + "']"@,
        AttributeOperatorModel::Contains(v) => "["@ + name + "~='"@ + v + "']"@,
        AttributeOperatorModel::StartsWith(v) => "["@ + name + "|='"@ + v + "']"@,
    }
}

/// The text form of a sub-selector.
pub open spec fn render_sub(sub: SubSelectorModel) -> Seq<char> {
    match sub {
        SubSelectorModel::Attribute(name, op) => render_attribute(name, op),
        SubSelectorModel::PseudoClass(name) => ":"@ + name,
    }
}

/// The text form of a run of sub-selectors.
pub open spec fn render_subs(subs: Seq<SubSelectorModel>) -> Seq<char>
    decreases subs.len(),
{
    if subs.len() == 0 {
        Seq::empty()
    } else {
        render_subs(subs.drop_last()) + render_sub(subs.last())
    }
}

/// The text form of a component: its combinator, its type and its
/// sub-selectors.
pub open spec fn render_component(c: ComponentModel) -> Seq<char> {
    (match c.combinator {
        Combinator::NoCombinator => Seq::<char>::empty(),
        Combinator::Descendant => " "@,
        Combinator::Child => " > "@,
        Combinator::AdjacentSibling => " + "@,
    }) + (match c.selector.kind {
        SimpleSelectorTypeModel::Universal => "*"@,
        SimpleSelectorTypeModel::Type(t) => t,
    }) + render_subs(c.selector.subselectors)
}

/// The text form of a whole selector.
pub open spec fn render_selector(comps: Seq<ComponentModel>) -> Seq<char>
    decreases comps.len(),
{
    if comps.len() == 0 {
        Seq::empty()
    } else {
        render_selector(comps.drop_last()) + render_component(comps.last())
    }
}

impl Selector {
    /// Writes the selector back as text.  Reparsing the result gives
    /// an equivalent selector.
    pub fn to_selector_string(&self) -> (r: String)
        ensures
            r@ == render_selector(self.model().components),
    {
        let mut out = String::new();
        let n = self.components.len();
        proof {
            assert(self.model().components.take(0int) =~= Seq::<ComponentModel>::empty());
        }
        for i in 0..n
            invariant
                n == self.components@.len(),
                out@ == render_selector(self.model().components.take(i as int)),
        {
            let ghost cm = self.model().components;
            let component = &self.components[i];
            match component.combinator {
                Combinator::NoCombinator => {},
                Combinator::Descendant => out.append(" "),
                Combinator::Child => out.append(" > "),
                Combinator::AdjacentSibling => out.append(" + "),
            }
            match &component.selector.kind {
                SimpleSelectorType::Universal => out.append("*"),
                SimpleSelectorType::Type(t) => out.append(t.as_str()),
            }
            let subs = &component.selector.subselectors;
            let m = subs.len();
            let ghost subsm = self.components@[i as int].selector.model().subselectors;
            proof {
                assert(subsm.take(0int) =~= Seq::<SubSelectorModel>::empty());
                assert(render_subs(subsm.take(0int)) =~= Seq::<char>::empty());
            }
            for j in 0..m
                invariant
                    n == self.components@.len(),
                    i < n,
                    m == subs@.len(),
                    subs == &self.components@[i as int].selector.subselectors,
                    subsm == self.components@[i as int].selector.model().subselectors,
                    out@ == render_selector(self.model().components.take(i as int))
                        + (match self.model().components[i as int].combinator {
                        Combinator::NoCombinator => Seq::<char>::empty(),
                        Combinator::Descendant => " "@,
                        Combinator::Child => " > "@,
                        Combinator::AdjacentSibling => " + "@,
                    }) + (match self.model().components[i as int].selector.kind {
                        SimpleSelectorTypeModel::Universal => "*"@,
                        SimpleSelectorTypeModel::Type(t) => t,
                    }) + render_subs(subsm.take(j as int)),
            {
                let ghost pre = out@;
                match &subs[j] {
                    SubSelector::Attribute(name, operator) => {
                        out.append("[");
                        out.append(name.as_str());
                        match operator {
                            AttributeOperator::Exists => {
                                out.append("]");
                            },
                            AttributeOperator::Matches(value) => {
                                out.append("='");
                                out.append(value.as_str());
                                out.append("']");
                            },
                            AttributeOperator::Contains(value) => {
                                out.append("~='");
                                out.append(value.as_str());
                                out.append("']");
                            },
                            AttributeOperator::StartsWith(value) => {
                                out.append("|='");
                                out.append(value.as_str());
                                out.append("']");
                            },
                        }
                    },
                    SubSelector::PseudoClass(name) => {
                        out.append(":");
                        out.append(name.as_str());
                    },
                }
                proof {
                    assert(subsm.take(j + 1).drop_last() =~= subsm.take(j as int));
                    assert(subsm.take(j + 1).last() == subsm[j as int]);
                    assert(subsm[j as int] == subs@[j as int].model());
                    assert(out@ =~= pre + render_sub(subsm[j as int]));
                    assert(out@ =~= render_selector(self.model().components.take(i as int))
                        + (match self.model().components[i as int].combinator {
                        Combinator::NoCombinator => Seq::<char>::empty(),
                        Combinator::Descendant => " "@,
                        Combinator::Child => " > "@,
                        Combinator::AdjacentSibling => " + "@,
                    }) + (match self.model().components[i as int].selector.kind {
                        SimpleSelectorTypeModel::Universal => "*"@,
                        SimpleSelectorTypeModel::Type(t) => t,
                    }) + render_subs(subsm.take(j + 1)));
                }
            }
            proof {
                assert(cm.take(i + 1).drop_last() =~= cm.take(i as int));
                assert(cm.take(i + 1).last() == cm[i as int]);
                assert(subsm.take(m as int) =~= cm[i as int].selector.subselectors);
                assert(out@ =~= render_selector(cm.take(i as int)) + render_component(cm[
                    i as int]));
                assert(out@ =~= render_selector(cm.take(i + 1)));
            }
        }
        proof {
            assert(self.model().components.take(n as int) =~= self.model().components);
        }
        out
    }
}

} // verus!
