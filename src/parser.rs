//! The template parser: template text to an `AstNode` tree.
//!
//! The grammar is stated as spec functions over the characters of the input
//! and character positions in it; each executable parsing step is proved to
//! compute exactly what its spec function describes. A parse failure carries
//! the position where it happened, turned into a line and a byte column at the
//! end.
use vstd::prelude::*;
use crate::ast::{AstNode, Node, models, lemma_models_push};
use crate::error::{KindModel, ParseError, ParseErrorKind, eof_note};
use crate::text::{
    as_count, has_at, is_ident_char, is_space, ident_char, owned, slice_string, space_char,
    str_at,
};

verus! {

/// A parse failure in the model: where it happened and what it is.
pub struct Failure {
    pub pos: int,
    pub kind: KindModel,
}

/// The result of a parsing step: a value and the position after it, or a failure.
pub type Parsed<T> = Result<(T, int), Failure>;

/// Position after the ASCII whitespace that starts at `p`. Inside a tag `//`
/// is no comment: it is left for the grammar, which rejects it.
pub open spec fn skip_space(s: Seq<char>, p: int) -> int
    decreases s.len() - p,
{
    if 0 <= p < s.len() && is_space(s[p]) {
        skip_space(s, p + 1)
    } else {
        p
    }
}

pub proof fn lemma_skip_space(s: Seq<char>, p: int)
    requires
        0 <= p <= s.len(),
    ensures
        p <= skip_space(s, p) <= s.len(),
        forall|i: int| p <= i < skip_space(s, p) ==> is_space(#[trigger] s[i]),
    decreases s.len() - p,
{
    if p < s.len() && is_space(s[p]) {
        lemma_skip_space(s, p + 1);
    }
}

/// Position after the identifier characters that start at `p`.
pub open spec fn ident_end(s: Seq<char>, p: int) -> int
    decreases s.len() - p,
{
    if 0 <= p < s.len() && is_ident_char(s[p]) {
        ident_end(s, p + 1)
    } else {
        p
    }
}

/// The text an `Expected` failure shows: the token and what stands in its place.
pub open spec fn expected_text(s: Seq<char>, p: int, t: Seq<char>) -> Seq<char> {
    let stop = if p + t.len() + 10 <= s.len() {
        p + t.len() + 10
    } else {
        s.len() as int
    };
    "'"@ + t + "', found '"@ + s.subrange(p, stop) + "'"@
}

/// Reads the token `t` at `p`.
pub open spec fn expect_spec(s: Seq<char>, p: int, t: Seq<char>) -> Result<int, Failure> {
    if has_at(s, p, t) {
        Ok(p + t.len())
    } else {
        Err(Failure { pos: p, kind: KindModel::Expected(expected_text(s, p, t)) })
    }
}

/// Reads an identifier after optional whitespace.
pub open spec fn ident_spec(s: Seq<char>, p: int) -> Parsed<Seq<char>> {
    let q = skip_space(s, p);
    let e = ident_end(s, q);
    if e == q {
        Err(Failure { pos: q, kind: KindModel::Expected("identifier"@) })
    } else {
        Ok((s.subrange(q, e), e))
    }
}

/// The text of the constant that starts at `p`: up to the next `{{` or the end
/// of input, where each `\{{` stands for a literal `{{`.
pub open spec fn constant_text(s: Seq<char>, p: int) -> Seq<char>
    decreases s.len() - p,
{
    if p < 0 || p >= s.len() {
        Seq::empty()
    } else if has_at(s, p, "\\{{"@) {
        proof {
            reveal_strlit("\\{{");
        }
        "{{"@ + constant_text(s, p + 3)
    } else if has_at(s, p, "{{"@) {
        Seq::empty()
    } else {
        seq![s[p]] + constant_text(s, p + 1)
    }
}

/// Position after the constant that starts at `p`.
pub open spec fn constant_end(s: Seq<char>, p: int) -> int
    decreases s.len() - p,
{
    if p < 0 || p >= s.len() {
        p
    } else if has_at(s, p, "\\{{"@) {
        proof {
            reveal_strlit("\\{{");
        }
        constant_end(s, p + 3)
    } else if has_at(s, p, "{{"@) {
        p
    } else {
        constant_end(s, p + 1)
    }
}

/// The name an inclusion refers to: the identifier without a `.tmpl` suffix.
pub open spec fn include_name(id: Seq<char>) -> Seq<char> {
    if id.len() > 5 && id.subrange(id.len() - 5, id.len() as int) == ".tmpl"@ {
        id.subrange(0, id.len() - 5)
    } else {
        id
    }
}

/// `{{ name }}` or `{{<< name }}`, starting at `p`.
pub open spec fn var_or_include_spec(s: Seq<char>, p: int) -> Parsed<Node> {
    match expect_spec(s, p, "{{"@) {
        Err(f) => Err(f),
        Ok(p1) => if has_at(s, p1, "<<"@) {
            match ident_spec(s, p1 + "<<"@.len()) {
                Err(f) => Err(f),
                Ok((id, p2)) => match expect_spec(s, skip_space(s, p2), "}}"@) {
                    Err(f) => Err(f),
                    Ok(p3) => Ok((Node::TemplateInclude(include_name(id)), p3)),
                },
            }
        } else {
            match ident_spec(s, p1) {
                Err(f) => Err(f),
                Ok((name, p2)) => match expect_spec(s, skip_space(s, p2), "}}"@) {
                    Err(f) => Err(f),
                    Ok(p3) => Ok((Node::Variable(name), p3)),
                },
            }
        },
    }
}

/// A bare variable in a condition.
pub open spec fn primary_spec(s: Seq<char>, p: int) -> Parsed<Node> {
    match ident_spec(s, p) {
        Err(f) => Err(f),
        Ok((name, q)) => Ok((Node::Variable(name), q)),
    }
}

/// `!`-chains over a primary.
pub open spec fn not_spec(s: Seq<char>, p: int) -> Parsed<Node>
    decreases s.len() - p,
{
    let q = skip_space(s, p);
    if 0 <= p <= s.len() && has_at(s, q, "!"@) {
        proof {
            reveal_strlit("!");
            lemma_skip_space(s, p);
        }
        match not_spec(s, q + 1) {
            Err(f) => Err(f),
            Ok((c, r)) => Ok((Node::Not(Box::new(c)), r)),
        }
    } else {
        primary_spec(s, q)
    }
}

/// Never produced: every parsing step that feeds a recursive call consumes
/// input (the executable parser proves it), so this only makes the recursion
/// of the definitions visibly well-founded.
pub open spec fn stalled(q: int) -> Failure {
    Failure { pos: q, kind: KindModel::Message(Seq::empty()) }
}

/// The `&& operand` tail after `left`, from `p`.
pub open spec fn and_rest(s: Seq<char>, p: int, left: Node) -> Parsed<Node>
    decreases s.len() - p,
{
    let q = skip_space(s, p);
    if has_at(s, q, "&&"@) {
        match not_spec(s, q + 2) {
            Err(f) => Err(f),
            Ok((right, r)) => if p < r <= s.len() {
                and_rest(s, r, Node::And(Box::new(left), Box::new(right)))
            } else {
                Err(stalled(r))
            },
        }
    } else {
        Ok((left, q))
    }
}

/// A conjunction of `!`-chains, left-associative.
pub open spec fn and_spec(s: Seq<char>, p: int) -> Parsed<Node> {
    match not_spec(s, p) {
        Err(f) => Err(f),
        Ok((left, q)) => and_rest(s, q, left),
    }
}

/// The `|| operand` tail after `left`, from `p`.
pub open spec fn or_rest(s: Seq<char>, p: int, left: Node) -> Parsed<Node>
    decreases s.len() - p,
{
    let q = skip_space(s, p);
    if has_at(s, q, "||"@) {
        match and_spec(s, q + 2) {
            Err(f) => Err(f),
            Ok((right, r)) => if p < r <= s.len() {
                or_rest(s, r, Node::Or(Box::new(left), Box::new(right)))
            } else {
                Err(stalled(r))
            },
        }
    } else {
        Ok((left, q))
    }
}

/// A condition: a disjunction of conjunctions, left-associative.
pub open spec fn condition_spec(s: Seq<char>, p: int) -> Parsed<Node> {
    match and_spec(s, p) {
        Err(f) => Err(f),
        Ok((left, q)) => or_rest(s, q, left),
    }
}

/// The tokens of `{{% endfor %}}`.
pub open spec fn endfor_tag() -> Seq<Seq<char>> {
    seq!["{{%"@, "endfor"@, "%}}"@]
}

/// The tokens of `{{% endif %}}`.
pub open spec fn endif_tag() -> Seq<Seq<char>> {
    seq!["{{%"@, "endif"@, "%}}"@]
}

/// The tokens of `{{% else if`.
pub open spec fn else_if_tag() -> Seq<Seq<char>> {
    seq!["{{%"@, "else"@, "if"@]
}

/// The tokens of `{{% else %}}`.
pub open spec fn else_tag() -> Seq<Seq<char>> {
    seq!["{{%"@, "else"@, "%}}"@]
}

/// What an unclosed `if` block expects.
pub open spec fn if_closers() -> Seq<char> {
    "{{% endif %}} or {{% else %}} or {{% else if %}}"@
}

/// The tokens `toks`, each after optional whitespace, from `p`.
pub open spec fn tokens_follow(s: Seq<char>, p: int, toks: Seq<Seq<char>>) -> bool
    decreases toks.len(),
{
    if toks.len() == 0 {
        true
    } else {
        let q = skip_space(s, p);
        has_at(s, q, toks[0]) && tokens_follow(s, q + toks[0].len(), toks.subrange(1, toks.len() as int))
    }
}

/// The first token at `p` exactly, the others each after optional whitespace.
pub open spec fn peek_spec(s: Seq<char>, p: int, toks: Seq<Seq<char>>) -> bool {
    toks.len() > 0 && has_at(s, p, toks[0]) && tokens_follow(
        s,
        p + toks[0].len(),
        toks.subrange(1, toks.len() as int),
    )
}

/// The tokens joined by single spaces.
pub open spec fn joined(toks: Seq<Seq<char>>) -> Seq<char>
    decreases toks.len(),
{
    if toks.len() == 0 {
        Seq::empty()
    } else if toks.len() == 1 {
        toks[0]
    } else {
        toks[0] + " "@ + joined(toks.subrange(1, toks.len() as int))
    }
}

/// `{{%` then optional whitespace then `word` then optional whitespace then `%}}`, from `p`.
pub open spec fn closing_spec(s: Seq<char>, p: int, word: Seq<char>) -> Result<int, Failure> {
    match expect_spec(s, p, "{{%"@) {
        Err(f) => Err(f),
        Ok(p1) => match expect_spec(s, skip_space(s, p1), word) {
            Err(f) => Err(f),
            Ok(p2) => expect_spec(s, skip_space(s, p2), "%}}"@),
        },
    }
}

/// A node starting at `p`.
pub open spec fn node_spec(s: Seq<char>, p: int) -> Parsed<Node>
    decreases s.len() - p, 3int,
{
    if has_at(s, p, "{{%"@) {
        control_spec(s, p)
    } else if has_at(s, p, "{{"@) {
        var_or_include_spec(s, p)
    } else {
        Ok((Node::Constant(constant_text(s, p)), constant_end(s, p)))
    }
}

/// Nodes from `p` after those in `acc`, up to the tag `end` (not consumed) or,
/// without one, to the end of input.
pub open spec fn nodes_spec(s: Seq<char>, p: int, end: Option<Seq<Seq<char>>>, acc: Seq<Node>) -> Parsed<Seq<Node>>
    decreases s.len() - p, 4int,
{
    if p >= s.len() {
        match end {
            Some(t) => Err(Failure { pos: p, kind: KindModel::UnexpectedEOF(eof_note(Some(joined(t)))) }),
            None => Ok((acc, p)),
        }
    } else if end is Some && peek_spec(s, p, end->Some_0) {
        Ok((acc, p))
    } else {
        match node_spec(s, p) {
            Err(f) => Err(f),
            Ok((n, q)) => if p < q <= s.len() {
                nodes_spec(s, q, end, acc.push(n))
            } else {
                Err(stalled(q))
            },
        }
    }
}

/// `{{% if` or `{{% for` and what follows, starting at `p`.
pub open spec fn control_spec(s: Seq<char>, p: int) -> Parsed<Node>
    decreases s.len() - p, 2int,
{
    match expect_spec(s, p, "{{%"@) {
        Err(f) => Err(f),
        Ok(p1) => match ident_spec(s, p1) {
            Err(f) => Err(f),
            Ok((word, p2)) => if !(p < p2 <= s.len()) {
                Err(stalled(p2))
            } else if word == "if"@ {
                if_spec(s, p2)
            } else if word == "for"@ {
                for_spec(s, p2)
            } else {
                Err(Failure { pos: p2, kind: KindModel::UnknownKeyword(word) })
            },
        },
    }
}

/// The rest of a loop after `{{% for`, from `p`.
pub open spec fn for_spec(s: Seq<char>, p: int) -> Parsed<Node>
    decreases s.len() - p, 5int,
{
    match ident_spec(s, p) {
        Err(f) => Err(f),
        Ok((variable, p1)) => match expect_spec(s, skip_space(s, p1), "in"@) {
            Err(f) => Err(f),
            Ok(p2) => match ident_spec(s, p2) {
                Err(f) => Err(f),
                Ok((iterable, p3)) => match expect_spec(s, skip_space(s, p3), "%}}"@) {
                    Err(f) => Err(f),
                    Ok(p4) => if !(p <= p4 <= s.len()) {
                        Err(stalled(p4))
                    } else {
                        match nodes_spec(s, p4, Some(endfor_tag()), Seq::empty()) {
                            Err(f) => Err(f),
                            Ok((body, p5)) => match closing_spec(s, p5, "endfor"@) {
                                Err(f) => Err(f),
                                Ok(p6) => Ok((Node::For { iterable, variable, body }, p6)),
                            },
                        }
                    },
                },
            },
        },
    }
}

/// The rest of a conditional after `{{% if`, from `p`.
pub open spec fn if_spec(s: Seq<char>, p: int) -> Parsed<Node>
    decreases s.len() - p, 5int,
{
    match condition_spec(s, p) {
        Err(f) => Err(f),
        Ok((c, p1)) => match expect_spec(s, skip_space(s, p1), "%}}"@) {
            Err(f) => Err(f),
            Ok(p2) => if !(p < p2 <= s.len()) {
                Err(stalled(p2))
            } else {
                if_block_spec(s, p2, c, Seq::empty())
            },
        },
    }
}

/// The body of a conditional whose condition is `c`, from `p`, after the nodes
/// in `body`, through its `else if`, `else` and `endif` tags.
pub open spec fn if_block_spec(s: Seq<char>, p: int, c: Node, body: Seq<Node>) -> Parsed<Node>
    decreases s.len() - p, 5int,
{
    if p >= s.len() {
        Err(Failure { pos: p, kind: KindModel::UnexpectedEOF(eof_note(Some(if_closers()))) })
    } else if peek_spec(s, p, else_if_tag()) {
        else_if_spec(s, p, c, body)
    } else if peek_spec(s, p, else_tag()) {
        else_spec(s, p, c, body)
    } else if peek_spec(s, p, endif_tag()) {
        match closing_spec(s, p, "endif"@) {
            Err(f) => Err(f),
            Ok(p1) => Ok((Node::If { condition: Box::new(c), body, else_branch: None }, p1)),
        }
    } else {
        match node_spec(s, p) {
            Err(f) => Err(f),
            Ok((n, q)) => if p < q <= s.len() {
                if_block_spec(s, q, c, body.push(n))
            } else {
                Err(stalled(q))
            },
        }
    }
}

/// An `{{% else if c2 %}}` branch at `p` of the conditional on `c` with `body`:
/// the nested conditional becomes the else branch.
pub open spec fn else_if_spec(s: Seq<char>, p: int, c: Node, body: Seq<Node>) -> Parsed<Node>
    decreases s.len() - p, 4int,
{
    match expect_spec(s, p, "{{%"@) {
        Err(f) => Err(f),
        Ok(p1) => match expect_spec(s, skip_space(s, p1), "else"@) {
            Err(f) => Err(f),
            Ok(p2) => match expect_spec(s, skip_space(s, p2), "if"@) {
                Err(f) => Err(f),
                Ok(p3) => match condition_spec(s, skip_space(s, p3)) {
                    Err(f) => Err(f),
                    Ok((c2, p4)) => match expect_spec(s, skip_space(s, p4), "%}}"@) {
                        Err(f) => Err(f),
                        Ok(p5) => if !(p < p5 <= s.len()) {
                            Err(stalled(p5))
                        } else {
                            match if_block_spec(s, p5, c2, Seq::empty()) {
                                Err(f) => Err(f),
                                Ok((nested, p6)) => Ok((
                                    Node::If {
                                        condition: Box::new(c),
                                        body,
                                        else_branch: Some(Box::new(Node::Root(seq![nested]))),
                                    },
                                    p6,
                                )),
                            }
                        },
                    },
                },
            },
        },
    }
}

/// An `{{% else %}}` branch at `p` of the conditional on `c` with `body`,
/// through its `{{% endif %}}`.
pub open spec fn else_spec(s: Seq<char>, p: int, c: Node, body: Seq<Node>) -> Parsed<Node>
    decreases s.len() - p, 4int,
{
    match closing_spec(s, p, "else"@) {
        Err(f) => Err(f),
        Ok(p1) => if !(p < p1 <= s.len()) {
            Err(stalled(p1))
        } else {
            match nodes_spec(s, p1, Some(endif_tag()), Seq::empty()) {
                Err(f) => Err(f),
                Ok((other, p2)) => match closing_spec(s, p2, "endif"@) {
                    Err(f) => Err(f),
                    Ok(p3) => Ok((
                        Node::If {
                            condition: Box::new(c),
                            body,
                            else_branch: Some(Box::new(Node::Root(other))),
                        },
                        p3,
                    )),
                },
            }
        },
    }
}

/// A whole template.
pub open spec fn template_spec(s: Seq<char>) -> Result<Node, Failure> {
    match nodes_spec(s, 0, None, Seq::empty()) {
        Err(f) => Err(f),
        Ok((nodes, _)) => Ok(Node::Root(nodes)),
    }
}

/// The number of bytes of `c` in UTF-8.
pub open spec fn char_width(c: char) -> int {
    if (c as u32) < 0x80 {
        1
    } else if (c as u32) < 0x800 {
        2
    } else if (c as u32) < 0x10000 {
        3
    } else {
        4
    }
}

/// `char_width` is the length of the UTF-8 encoding of the character.
pub proof fn lemma_char_width(c: char)
    ensures
        char_width(c) == vstd::utf8::encode_scalar(c as u32).len(),
{
}

/// The 1-based line and byte column of position `p`.
pub open spec fn location(s: Seq<char>, p: int) -> (int, int)
    decreases p,
{
    if p <= 0 || p > s.len() {
        (1, 1)
    } else {
        let (line, column) = location(s, p - 1);
        if s[p - 1] == '\n' {
            (line + 1, 1)
        } else {
            (line, column + char_width(s[p - 1]))
        }
    }
}

/// The views of a sequence of string slices.
pub open spec fn strs_view(t: Seq<&str>) -> Seq<Seq<char>> {
    t.map_values(|x: &str| x@)
}

/// A parse failure at a character position.
struct Fail {
    pos: usize,
    kind: ParseErrorKind,
}

spec fn fail_view(f: Fail) -> Failure {
    Failure { pos: f.pos as int, kind: f.kind@ }
}

spec fn pos_view(r: Result<usize, Fail>) -> Result<int, Failure> {
    match r {
        Ok(q) => Ok(q as int),
        Err(f) => Err(fail_view(f)),
    }
}

spec fn span_view(s: Seq<char>, r: Result<(usize, usize), Fail>) -> Parsed<Seq<char>> {
    match r {
        Ok((a, b)) => Ok((s.subrange(a as int, b as int), b as int)),
        Err(f) => Err(fail_view(f)),
    }
}

spec fn node_view(r: Result<(AstNode, usize), Fail>) -> Parsed<Node> {
    match r {
        Ok((n, q)) => Ok((n.model(), q as int)),
        Err(f) => Err(fail_view(f)),
    }
}

spec fn nodes_view(r: Result<(Vec<AstNode>, usize), Fail>) -> Parsed<Seq<Node>> {
    match r {
        Ok((v, q)) => Ok((models(v@), q as int)),
        Err(f) => Err(fail_view(f)),
    }
}

spec fn tag_view(t: Option<&[&str]>) -> Option<Seq<Seq<char>>> {
    match t {
        Some(x) => Some(strs_view(x@)),
        None => None,
    }
}

/// A successful step ends in `(lo, len]`; a failure lies within the input.
spec fn moved<T>(r: Result<(T, usize), Fail>, lo: int, len: int) -> bool {
    &&& r is Ok ==> lo < r->Ok_0.1 <= len
    &&& r is Err ==> r->Err_0.pos <= len
}

/// The parser's state: the characters of the template text.
struct Parser {
    input: Vec<char>,
}

impl Parser {
    fn new(input: &str) -> (r: Parser)
        ensures
            r.input@ == input@,
    {
        Parser { input: crate::text::chars_of(input) }
    }

    spec fn s(&self) -> Seq<char> {
        self.input@
    }

    fn eof(&self, pos: usize) -> (r: bool)
        ensures
            r == (pos >= self.s().len()),
    {
        pos >= self.input.len()
    }

    fn peek(&self, pos: usize, t: &str) -> (r: bool)
        ensures
            r == has_at(self.s(), pos as int, t@),
    {
        str_at(&self.input, pos, t)
    }

    /// Position after `t` if it stands at `pos`.
    fn consume(&self, pos: usize, t: &str) -> (r: Option<usize>)
        ensures
            match r {
                Some(q) => has_at(self.s(), pos as int, t@) && q == pos + t@.len(),
                None => !has_at(self.s(), pos as int, t@),
            },
    {
        if self.peek(pos, t) {
            let n = t.unicode_len();
            let len = self.input.len();
            assert(pos + n <= len);
            Some(pos + n)
        } else {
            None
        }
    }

    fn expect(&self, pos: usize, t: &str) -> (r: Result<usize, Fail>)
        requires
            pos <= self.s().len(),
        ensures
            pos_view(r) == expect_spec(self.s(), pos as int, t@),
            r is Ok ==> r->Ok_0 == pos + t@.len() && r->Ok_0 <= self.s().len(),
            r is Err ==> r->Err_0.pos <= self.s().len(),
    {
        match self.consume(pos, t) {
            Some(q) => Ok(q),
            None => {
                let len = self.input.len();
                let n = t.unicode_len();
                let stop = if n <= len - pos && 10 <= len - pos - n {
                    pos + n + 10
                } else {
                    len
                };
                let found = slice_string(&self.input, pos, stop);
                let mut d = owned("'");
                d.append(t);
                d.append("', found '");
                d.append(found.as_str());
                d.append("'");
                Err(Fail { pos, kind: ParseErrorKind::Expected { description: d } })
            },
        }
    }

    /// Skips ASCII whitespace.
    fn consume_whitespace(&self, pos: usize) -> (r: usize)
        requires
            pos <= self.s().len(),
        ensures
            r == skip_space(self.s(), pos as int),
            pos <= r <= self.s().len(),
            forall|i: int| pos <= i < r ==> is_space(#[trigger] self.s()[i]),
    {
        proof {
            lemma_skip_space(self.s(), pos as int);
        }
        let mut p = pos;
        while p < self.input.len() && space_char(self.input[p])
            invariant
                pos <= p <= self.s().len(),
                skip_space(self.s(), pos as int) == skip_space(self.s(), p as int),
            decreases self.s().len() - p,
        {
            p = p + 1;
        }
        p
    }

    fn ident_end(&self, pos: usize) -> (r: usize)
        requires
            pos <= self.s().len(),
        ensures
            r == ident_end(self.s(), pos as int),
            pos <= r <= self.s().len(),
    {
        let mut p = pos;
        while p < self.input.len() && ident_char(self.input[p])
            invariant
                pos <= p <= self.s().len(),
                ident_end(self.s(), pos as int) == ident_end(self.s(), p as int),
            decreases self.s().len() - p,
        {
            p = p + 1;
        }
        p
    }

    /// The span of an identifier after optional whitespace.
    fn consume_identifier(&self, pos: usize) -> (r: Result<(usize, usize), Fail>)
        requires
            pos <= self.s().len(),
        ensures
            span_view(self.s(), r) == ident_spec(self.s(), pos as int),
            r is Ok ==> pos <= r->Ok_0.0 < r->Ok_0.1 <= self.s().len(),
            r is Err ==> r->Err_0.pos <= self.s().len(),
    {
        let q = self.consume_whitespace(pos);
        let e = self.ident_end(q);
        if e == q {
            Err(Fail { pos: q, kind: ParseErrorKind::Expected { description: owned("identifier") } })
        } else {
            Ok((q, e))
        }
    }

    /// Constant text from `pos`: empty at a `{{` or the end of input.
    fn parse_constant(&self, pos: usize) -> (r: (AstNode, usize))
        requires
            pos <= self.s().len(),
        ensures
            r.0.model() == Node::Constant(constant_text(self.s(), pos as int)),
            r.1 == constant_end(self.s(), pos as int),
            pos <= r.1 <= self.s().len(),
            pos < self.s().len() && !has_at(self.s(), pos as int, "{{"@) ==> pos < r.1,
    {
        let ghost s = self.s();
        let mut out: Vec<char> = Vec::new();
        let mut p = pos;
        while p < self.input.len() && (self.peek(p, "\\{{") || !self.peek(p, "{{"))
            invariant
                pos <= p <= s.len(),
                s == self.s(),
                out@ + constant_text(s, p as int) == constant_text(s, pos as int),
                constant_end(s, p as int) == constant_end(s, pos as int),
            decreases s.len() - p,
        {
            proof {
                reveal_strlit("{{");
                reveal_strlit("\\{{");
            }
            if self.peek(p, "\\{{") {
                out.push('{');
                out.push('{');
                assert(out@ + constant_text(s, p + 3) =~= constant_text(s, pos as int));
                p = p + 3;
            } else {
                out.push(self.input[p]);
                assert(out@ + constant_text(s, p + 1) =~= constant_text(s, pos as int));
                p = p + 1;
            }
        }
        assert(out@ =~= constant_text(s, pos as int));
        (AstNode::Constant { data: crate::text::collect_string(&out) }, p)
    }

    /// `{{ name }}` or `{{<< name }}`.
    #[verifier::rlimit(40)]
    fn parse_variable_or_include(&self, pos: usize) -> (r: Result<(AstNode, usize), Fail>)
        requires
            pos <= self.s().len(),
        ensures
            node_view(r) == var_or_include_spec(self.s(), pos as int),
            moved(r, pos as int, self.s().len() as int),
    {
        proof {
            reveal_strlit("{{");
            reveal_strlit("<<");
            reveal_strlit("}}");
        }
        let p1 = match self.expect(pos, "{{") {
            Ok(q) => q,
            Err(f) => return Err(f),
        };
        match self.consume(p1, "<<") {
            Some(p2) => {
                let (q, e) = match self.consume_identifier(p2) {
                    Ok(span) => span,
                    Err(f) => return Err(f),
                };
                let ws = self.consume_whitespace(e);
                let p3 = match self.expect(ws, "}}") {
                    Ok(x) => x,
                    Err(f) => return Err(f),
                };
                let stop = if e - q > 5 && self.peek(e - 5, ".tmpl") {
                    e - 5
                } else {
                    e
                };
                proof {
                    reveal_strlit(".tmpl");
                    let id = self.s().subrange(q as int, e as int);
                    if e - q > 5 {
                        assert(id.subrange(id.len() - 5, id.len() as int) =~= self.s().subrange(
                            e - 5,
                            e as int,
                        ));
                        assert(id.subrange(0, id.len() - 5) =~= self.s().subrange(
                            q as int,
                            e - 5,
                        ));
                    }
                }
                let name = slice_string(&self.input, q, stop);
                Ok((AstNode::TemplateInclude { template_name: name }, p3))
            },
            None => {
                let (q, e) = match self.consume_identifier(p1) {
                    Ok(span) => span,
                    Err(f) => return Err(f),
                };
                let ws = self.consume_whitespace(e);
                let p3 = match self.expect(ws, "}}") {
                    Ok(x) => x,
                    Err(f) => return Err(f),
                };
                let name = slice_string(&self.input, q, e);
                Ok((AstNode::Variable { name }, p3))
            },
        }
    }

    fn make_error(&self, f: Fail) -> (r: ParseError)
        requires
            f.pos <= self.s().len(),
        ensures
            r.line == as_count(location(self.s(), f.pos as int).0),
            r.column == as_count(location(self.s(), f.pos as int).1),
            r.kind@ == f.kind@,
    {
        let (line, column) = self.current_location(f.pos);
        ParseError { line, column, kind: f.kind }
    }

    /// The line and byte column of `pos`, counted from 1.
    fn current_location(&self, pos: usize) -> (r: (usize, usize))
        requires
            pos <= self.s().len(),
        ensures
            r.0 == as_count(location(self.s(), pos as int).0),
            r.1 == as_count(location(self.s(), pos as int).1),
    {
        let mut line: usize = 1;
        let mut column: usize = 1;
        let mut i: usize = 0;
        while i < pos
            invariant
                i <= pos <= self.s().len(),
                line == as_count(location(self.s(), i as int).0),
                column == as_count(location(self.s(), i as int).1),
                location(self.s(), i as int).0 >= 1,
                location(self.s(), i as int).1 >= 1,
            decreases pos - i,
        {
            let c = self.input[i];
            if c == '\n' {
                line = if line < usize::MAX {
                    line + 1
                } else {
                    line
                };
                column = 1;
            } else {
                let w: usize = if (c as u32) < 0x80 {
                    1
                } else if (c as u32) < 0x800 {
                    2
                } else if (c as u32) < 0x10000 {
                    3
                } else {
                    4
                };
                column = if column <= usize::MAX - w {
                    column + w
                } else {
                    usize::MAX
                };
            }
            i = i + 1;
        }
        (line, column)
    }

    /// Whether the tokens stand at `pos`: the first right there, each other one
    /// after optional whitespace.
    fn peek_n(&self, pos: usize, tokens: &[&str]) -> (r: bool)
        requires
            pos <= self.s().len(),
        ensures
            r == peek_spec(self.s(), pos as int, strs_view(tokens@)),
    {
        let ghost toks = strs_view(tokens@);
        if tokens.len() == 0 {
            return false;
        }
        let mut p = match self.consume(pos, tokens[0]) {
            Some(q) => q,
            None => return false,
        };
        let mut i: usize = 1;
        while i < tokens.len()
            invariant
                1 <= i <= tokens@.len(),
                toks == strs_view(tokens@),
                p <= self.s().len(),
                peek_spec(self.s(), pos as int, toks) == tokens_follow(
                    self.s(),
                    p as int,
                    toks.subrange(i as int, toks.len() as int),
                ),
            decreases tokens@.len() - i,
        {
            let q = self.consume_whitespace(p);
            let ghost rest = toks.subrange(i as int, toks.len() as int);
            assert(rest.subrange(1, rest.len() as int) =~= toks.subrange(i + 1, toks.len() as int));
            match self.consume(q, tokens[i]) {
                Some(q2) => {
                    p = q2;
                },
                None => return false,
            }
            i = i + 1;
        }
        true
    }

    /// `{{%`, a keyword and `%}}`, with optional whitespace around the keyword.
    fn expect_closing(&self, pos: usize, word: &str) -> (r: Result<usize, Fail>)
        requires
            pos <= self.s().len(),
        ensures
            pos_view(r) == closing_spec(self.s(), pos as int, word@),
            r is Ok ==> pos + 3 <= r->Ok_0 <= self.s().len(),
            r is Err ==> r->Err_0.pos <= self.s().len(),
    {
        proof {
            reveal_strlit("{{%");
        }
        let p1 = match self.expect(pos, "{{%") {
            Ok(q) => q,
            Err(f) => return Err(f),
        };
        let w1 = self.consume_whitespace(p1);
        let p2 = match self.expect(w1, word) {
            Ok(q) => q,
            Err(f) => return Err(f),
        };
        let w2 = self.consume_whitespace(p2);
        self.expect(w2, "%}}")
    }

    fn parse_primary_expression(&self, pos: usize) -> (r: Result<(AstNode, usize), Fail>)
        requires
            pos <= self.s().len(),
        ensures
            node_view(r) == primary_spec(self.s(), pos as int),
            moved(r, pos as int, self.s().len() as int),
    {
        match self.consume_identifier(pos) {
            Ok((q, e)) => Ok((AstNode::Variable { name: slice_string(&self.input, q, e) }, e)),
            Err(f) => Err(f),
        }
    }

    fn parse_not_expression(&self, pos: usize) -> (r: Result<(AstNode, usize), Fail>)
        requires
            pos <= self.s().len(),
        ensures
            node_view(r) == not_spec(self.s(), pos as int),
            moved(r, pos as int, self.s().len() as int),
        decreases self.s().len() - pos,
    {
        let q = self.consume_whitespace(pos);
        match self.consume(q, "!") {
            Some(q1) => {
                proof {
                    reveal_strlit("!");
                }
                match self.parse_not_expression(q1) {
                    Ok((c, r)) => Ok((AstNode::Not { condition: Box::new(c) }, r)),
                    Err(f) => Err(f),
                }
            },
            None => self.parse_primary_expression(q),
        }
    }

    fn parse_and_expression(&self, pos: usize) -> (r: Result<(AstNode, usize), Fail>)
        requires
            pos <= self.s().len(),
        ensures
            node_view(r) == and_spec(self.s(), pos as int),
            moved(r, pos as int, self.s().len() as int),
    {
        let (mut left, mut p) = match self.parse_not_expression(pos) {
            Ok(x) => x,
            Err(f) => return Err(f),
        };
        loop
            invariant
                pos < p <= self.s().len(),
                and_spec(self.s(), pos as int) == and_rest(self.s(), p as int, left.model()),
            decreases self.s().len() - p,
        {
            let q = self.consume_whitespace(p);
            match self.consume(q, "&&") {
                Some(q1) => {
                    proof {
                        reveal_strlit("&&");
                    }
                    match self.parse_not_expression(q1) {
                        Ok((right, r)) => {
                            left = AstNode::And { left: Box::new(left), right: Box::new(right) };
                            p = r;
                        },
                        Err(f) => return Err(f),
                    }
                },
                None => return Ok((left, q)),
            }
        }
    }

    fn parse_or_expression(&self, pos: usize) -> (r: Result<(AstNode, usize), Fail>)
        requires
            pos <= self.s().len(),
        ensures
            node_view(r) == condition_spec(self.s(), pos as int),
            moved(r, pos as int, self.s().len() as int),
    {
        let (mut left, mut p) = match self.parse_and_expression(pos) {
            Ok(x) => x,
            Err(f) => return Err(f),
        };
        loop
            invariant
                pos < p <= self.s().len(),
                condition_spec(self.s(), pos as int) == or_rest(self.s(), p as int, left.model()),
            decreases self.s().len() - p,
        {
            let q = self.consume_whitespace(p);
            match self.consume(q, "||") {
                Some(q1) => {
                    proof {
                        reveal_strlit("||");
                    }
                    match self.parse_and_expression(q1) {
                        Ok((right, r)) => {
                            left = AstNode::Or { left: Box::new(left), right: Box::new(right) };
                            p = r;
                        },
                        Err(f) => return Err(f),
                    }
                },
                None => return Ok((left, q)),
            }
        }
    }

    /// A condition: `||` binds loosest, then `&&`, then `!`.
    fn parse_condition_expression(&self, pos: usize) -> (r: Result<(AstNode, usize), Fail>)
        requires
            pos <= self.s().len(),
        ensures
            node_view(r) == condition_spec(self.s(), pos as int),
            moved(r, pos as int, self.s().len() as int),
    {
        self.parse_or_expression(pos)
    }

    /// The tokens joined by single spaces.
    fn join_tokens(tokens: &[&str]) -> (r: String)
        ensures
            r@ == joined(strs_view(tokens@)),
    {
        let ghost toks = strs_view(tokens@);
        let n = tokens.len();
        if n == 0 {
            return String::new();
        }
        let mut out = owned(tokens[0]);
        let mut i: usize = 1;
        while i < n
            invariant
                1 <= i <= n,
                n == tokens@.len(),
                toks == strs_view(tokens@),
                joined(toks) == out@ + (if i < n {
                    " "@ + joined(toks.subrange(i as int, n as int))
                } else {
                    Seq::empty()
                }),
            decreases n - i,
        {
            let ghost rest = toks.subrange(i as int, n as int);
            assert(rest.subrange(1, rest.len() as int) =~= toks.subrange(i + 1, n as int));
            assert(rest[0] == tokens@[i as int]@);
            out.append(" ");
            out.append(tokens[i]);
            i = i + 1;
            proof {
                if i < n {
                    assert(joined(toks) =~= out@ + (" "@ + joined(toks.subrange(i as int, n as int))));
                } else {
                    assert(joined(toks) =~= out@);
                }
            }
        }
        proof {
            if n == 1 {
                assert(joined(toks) == toks[0]);
            }
        }
        out
    }

    fn parse_node(&self, pos: usize) -> (r: Result<(AstNode, usize), Fail>)
        requires
            pos < self.s().len(),
        ensures
            node_view(r) == node_spec(self.s(), pos as int),
            moved(r, pos as int, self.s().len() as int),
        decreases self.s().len() - pos, 3int,
    {
        if self.peek(pos, "{{%") {
            self.parse_control_flow(pos)
        } else if self.peek(pos, "{{") {
            self.parse_variable_or_include(pos)
        } else {
            let (n, q) = self.parse_constant(pos);
            Ok((n, q))
        }
    }

    /// Nodes up to `end_tag` (left in place) or, without one, to the end of input.
    #[verifier::rlimit(40)]
    fn parse_nodes_until(&self, pos: usize, end_tag: Option<&[&str]>) -> (r: Result<(Vec<AstNode>, usize), Fail>)
        requires
            pos <= self.s().len(),
        ensures
            nodes_view(r) == nodes_spec(self.s(), pos as int, tag_view(end_tag), Seq::empty()),
            r is Ok ==> pos <= r->Ok_0.1 <= self.s().len(),
            r is Err ==> r->Err_0.pos <= self.s().len(),
        decreases self.s().len() - pos, 4int,
    {
        let mut nodes: Vec<AstNode> = Vec::new();
        let mut p = pos;
        proof {
            assert(models(nodes@) =~= Seq::<Node>::empty());
        }
        loop
            invariant
                pos <= p <= self.s().len(),
                nodes_spec(self.s(), pos as int, tag_view(end_tag), Seq::empty()) == nodes_spec(
                    self.s(),
                    p as int,
                    tag_view(end_tag),
                    models(nodes@),
                ),
            decreases self.s().len() - p,
        {
            if self.eof(p) {
                match end_tag {
                    Some(t) => {
                        let text = Parser::join_tokens(t);
                        return Err(Fail { pos: p, kind: ParseErrorKind::unexpected_eof(Some(text)) });
                    },
                    None => return Ok((nodes, p)),
                }
            }
            match end_tag {
                Some(t) => {
                    if self.peek_n(p, t) {
                        return Ok((nodes, p));
                    }
                },
                None => {},
            }
            match self.parse_node(p) {
                Ok((n, q)) => {
                    proof {
                        lemma_models_push(nodes@, n);
                    }
                    nodes.push(n);
                    p = q;
                },
                Err(f) => return Err(f),
            }
        }
    }

    #[verifier::rlimit(40)]
    fn parse_control_flow(&self, pos: usize) -> (r: Result<(AstNode, usize), Fail>)
        requires
            pos <= self.s().len(),
        ensures
            node_view(r) == control_spec(self.s(), pos as int),
            moved(r, pos as int, self.s().len() as int),
        decreases self.s().len() - pos, 2int,
    {
        proof {
            reveal_strlit("{{%");
            reveal_strlit("if");
            reveal_strlit("for");
        }
        let p1 = match self.expect(pos, "{{%") {
            Ok(q) => q,
            Err(f) => return Err(f),
        };
        let (q, p2) = match self.consume_identifier(p1) {
            Ok(span) => span,
            Err(f) => return Err(f),
        };
        let ghost word = self.s().subrange(q as int, p2 as int);
        let is_if = p2 - q == 2 && self.peek(q, "if");
        let is_for = p2 - q == 3 && self.peek(q, "for");
        proof {
            assert(is_if == (word == "if"@)) by {
                if word == "if"@ {
                    assert(self.s().subrange(q as int, q + 2) =~= word);
                }
                if is_if {
                    assert(word =~= "if"@);
                }
            }
            assert(is_for == (word == "for"@)) by {
                if word == "for"@ {
                    assert(self.s().subrange(q as int, q + 3) =~= word);
                }
                if is_for {
                    assert(word =~= "for"@);
                }
            }
        }
        if is_if {
            self.parse_if_statement(p2)
        } else if is_for {
            self.parse_for_loop(p2)
        } else {
            let keyword = slice_string(&self.input, q, p2);
            Err(Fail { pos: p2, kind: ParseErrorKind::UnknownKeyword { keyword } })
        }
    }

    #[verifier::rlimit(40)]
    fn parse_for_loop(&self, pos: usize) -> (r: Result<(AstNode, usize), Fail>)
        requires
            pos <= self.s().len(),
        ensures
            node_view(r) == for_spec(self.s(), pos as int),
            moved(r, pos as int, self.s().len() as int),
        decreases self.s().len() - pos, 5int,
    {
        proof {
            reveal_strlit("{{%");
            reveal_strlit("endfor");
            reveal_strlit("%}}");
        }
        let (vq, ve) = match self.consume_identifier(pos) {
            Ok(span) => span,
            Err(f) => return Err(f),
        };
        let w1 = self.consume_whitespace(ve);
        let p2 = match self.expect(w1, "in") {
            Ok(q) => q,
            Err(f) => return Err(f),
        };
        let (iq, ie) = match self.consume_identifier(p2) {
            Ok(span) => span,
            Err(f) => return Err(f),
        };
        let w3 = self.consume_whitespace(ie);
        let p4 = match self.expect(w3, "%}}") {
            Ok(q) => q,
            Err(f) => return Err(f),
        };
        let tag: [&str; 3] = ["{{%", "endfor", "%}}"];
        let tag_slice = vstd::array::array_as_slice(&tag);
        proof {
            assert(strs_view(tag_slice@) =~= endfor_tag());
        }
        let (body, p5) = match self.parse_nodes_until(p4, Some(tag_slice)) {
            Ok(x) => x,
            Err(f) => return Err(f),
        };
        let p6 = match self.expect_closing(p5, "endfor") {
            Ok(q) => q,
            Err(f) => return Err(f),
        };
        let variable = slice_string(&self.input, vq, ve);
        let iterable = slice_string(&self.input, iq, ie);
        Ok((AstNode::For { iterable, variable, body }, p6))
    }

    fn parse_if_statement(&self, pos: usize) -> (r: Result<(AstNode, usize), Fail>)
        requires
            pos <= self.s().len(),
        ensures
            node_view(r) == if_spec(self.s(), pos as int),
            moved(r, pos as int, self.s().len() as int),
        decreases self.s().len() - pos, 5int,
    {
        proof {
            reveal_strlit("%}}");
        }
        let (condition, p1) = match self.parse_condition_expression(pos) {
            Ok(x) => x,
            Err(f) => return Err(f),
        };
        let w1 = self.consume_whitespace(p1);
        let p2 = match self.expect(w1, "%}}") {
            Ok(q) => q,
            Err(f) => return Err(f),
        };
        self.parse_if_block_internal(p2, condition)
    }

    /// The body of a conditional and its `else if`, `else` and `endif` tags.
    #[verifier::rlimit(40)]
    fn parse_if_block_internal(&self, pos: usize, condition: AstNode) -> (r: Result<(AstNode, usize), Fail>)
        requires
            pos <= self.s().len(),
        ensures
            node_view(r) == if_block_spec(self.s(), pos as int, condition.model(), Seq::empty()),
            moved(r, pos as int, self.s().len() as int),
        decreases self.s().len() - pos, 5int,
    {
        let ghost c = condition.model();
        let mut body: Vec<AstNode> = Vec::new();
        let mut p = pos;
        let else_if: [&str; 3] = ["{{%", "else", "if"];
        let else_only: [&str; 3] = ["{{%", "else", "%}}"];
        let endif: [&str; 3] = ["{{%", "endif", "%}}"];
        let else_if_slice = vstd::array::array_as_slice(&else_if);
        let else_slice = vstd::array::array_as_slice(&else_only);
        let endif_slice = vstd::array::array_as_slice(&endif);
        proof {
            assert(models(body@) =~= Seq::<Node>::empty());
            assert(strs_view(else_if_slice@) =~= else_if_tag());
            assert(strs_view(else_slice@) =~= else_tag());
            assert(strs_view(endif_slice@) =~= endif_tag());
        }
        loop
            invariant
                pos <= p <= self.s().len(),
                c == condition.model(),
                strs_view(else_if_slice@) == else_if_tag(),
                strs_view(else_slice@) == else_tag(),
                strs_view(endif_slice@) == endif_tag(),
                if_block_spec(self.s(), pos as int, c, Seq::empty()) == if_block_spec(
                    self.s(),
                    p as int,
                    c,
                    models(body@),
                ),
            decreases self.s().len() - p,
        {
            if self.eof(p) {
                let closers = owned("{{% endif %}} or {{% else %}} or {{% else if %}}");
                return Err(Fail { pos: p, kind: ParseErrorKind::unexpected_eof(Some(closers)) });
            }
            if self.peek_n(p, else_if_slice) {
                return self.parse_else_if(p, condition, body);
            } else if self.peek_n(p, else_slice) {
                return self.parse_else(p, condition, body);
            } else if self.peek_n(p, endif_slice) {
                proof {
                    reveal_strlit("endif");
                }
                let p1 = match self.expect_closing(p, "endif") {
                    Ok(q) => q,
                    Err(f) => return Err(f),
                };
                return Ok((AstNode::If { condition: Box::new(condition), body, else_branch: None }, p1));
            } else {
                match self.parse_node(p) {
                    Ok((n, q)) => {
                        proof {
                            lemma_models_push(body@, n);
                        }
                        body.push(n);
                        p = q;
                    },
                    Err(f) => return Err(f),
                }
            }
        }
    }

    /// An `{{% else if c %}}` branch and the nested conditional it opens.
    #[verifier::rlimit(40)]
    fn parse_else_if(&self, pos: usize, condition: AstNode, body: Vec<AstNode>) -> (r: Result<(AstNode, usize), Fail>)
        requires
            pos < self.s().len(),
        ensures
            node_view(r) == else_if_spec(self.s(), pos as int, condition.model(), models(body@)),
            moved(r, pos as int, self.s().len() as int),
        decreases self.s().len() - pos, 3int,
    {
        proof {
            reveal_strlit("{{%");
            reveal_strlit("%}}");
            reveal_strlit("else");
            reveal_strlit("if");
        }
        let p1 = match self.expect(pos, "{{%") {
            Ok(q) => q,
            Err(f) => return Err(f),
        };
        let w1 = self.consume_whitespace(p1);
        let p2 = match self.expect(w1, "else") {
            Ok(q) => q,
            Err(f) => return Err(f),
        };
        let w2 = self.consume_whitespace(p2);
        let p3 = match self.expect(w2, "if") {
            Ok(q) => q,
            Err(f) => return Err(f),
        };
        let w3 = self.consume_whitespace(p3);
        let (next_condition, p4) = match self.parse_condition_expression(w3) {
            Ok(x) => x,
            Err(f) => return Err(f),
        };
        let w4 = self.consume_whitespace(p4);
        let p5 = match self.expect(w4, "%}}") {
            Ok(q) => q,
            Err(f) => return Err(f),
        };
        let (nested, p6) = match self.parse_if_block_internal(p5, next_condition) {
            Ok(x) => x,
            Err(f) => return Err(f),
        };
        let ghost nested_model = nested.model();
        let mut inner: Vec<AstNode> = Vec::new();
        inner.push(nested);
        proof {
            lemma_models_push(Seq::empty(), inner@[0]);
            assert(inner@ =~= Seq::<AstNode>::empty().push(inner@[0]));
            assert(models(Seq::<AstNode>::empty()) =~= Seq::<Node>::empty());
            assert(models(inner@) =~= seq![nested_model]);
        }
        let root = AstNode::Root(inner);
        assert(root.model() == Node::Root(seq![nested_model]));
        let else_branch = Some(Box::new(root));
        Ok((AstNode::If { condition: Box::new(condition), body, else_branch }, p6))
    }

    /// An `{{% else %}}` branch through its `{{% endif %}}`.
    #[verifier::rlimit(40)]
    fn parse_else(&self, pos: usize, condition: AstNode, body: Vec<AstNode>) -> (r: Result<(AstNode, usize), Fail>)
        requires
            pos < self.s().len(),
        ensures
            node_view(r) == else_spec(self.s(), pos as int, condition.model(), models(body@)),
            moved(r, pos as int, self.s().len() as int),
        decreases self.s().len() - pos, 3int,
    {
        proof {
            reveal_strlit("{{%");
            reveal_strlit("%}}");
            reveal_strlit("else");
            reveal_strlit("endif");
        }
        let endif: [&str; 3] = ["{{%", "endif", "%}}"];
        let endif_slice = vstd::array::array_as_slice(&endif);
        proof {
            assert(strs_view(endif_slice@) =~= endif_tag());
        }
        let p1 = match self.expect_closing(pos, "else") {
            Ok(q) => q,
            Err(f) => return Err(f),
        };
        let (other, p2) = match self.parse_nodes_until(p1, Some(endif_slice)) {
            Ok(x) => x,
            Err(f) => return Err(f),
        };
        let ghost other_models = models(other@);
        let p3 = match self.expect_closing(p2, "endif") {
            Ok(q) => q,
            Err(f) => return Err(f),
        };
        let root = AstNode::Root(other);
        assert(root.model() == Node::Root(other_models));
        let else_branch = Some(Box::new(root));
        Ok((AstNode::If { condition: Box::new(condition), body, else_branch }, p3))
    }
}

/// Parses template text into a `Root` node holding the template's nodes.
pub fn tokenize(input: &str) -> (r: Result<AstNode, ParseError>)
    ensures
        match r {
            Ok(n) => template_spec(input@) == Ok::<Node, Failure>(n.model()),
            Err(e) => template_spec(input@) is Err && e.kind@ == template_spec(input@)->Err_0.kind
                && e.line == as_count(location(input@, template_spec(input@)->Err_0.pos).0)
                && e.column == as_count(location(input@, template_spec(input@)->Err_0.pos).1),
        },
{
    let parser = Parser::new(input);
    match parser.parse_nodes_until(0, None) {
        Ok((nodes, _)) => Ok(AstNode::Root(nodes)),
        Err(f) => {
            Err(parser.make_error(f))
        },
    }
}

/// Whether `tokens` stand at the start of `input`: the first right there, each
/// other one after optional ASCII whitespace.
pub fn peek_tokens(input: &str, tokens: &[&str]) -> (r: bool)
    ensures
        r == peek_spec(input@, 0, strs_view(tokens@)),
{
    let parser = Parser::new(input);
    parser.peek_n(0, tokens)
}

/// The condition model when it spans all of `s`; otherwise the failure, or a
/// `Message` failure where the condition stops.
pub open spec fn whole_condition_spec(s: Seq<char>) -> Result<Node, Failure> {
    match condition_spec(s, 0) {
        Err(f) => Err(f),
        Ok((n, q)) => if q == s.len() {
            Ok(n)
        } else {
            Err(Failure { pos: q, kind: KindModel::Message("condition does not span the whole input"@) })
        },
    }
}

/// Parses `input` as a condition expression (`||` loosest, then `&&`, then `!`)
/// that must span all of it.
pub fn parse_condition(input: &str) -> (r: Result<AstNode, ParseError>)
    ensures
        match r {
            Ok(n) => whole_condition_spec(input@) == Ok::<Node, Failure>(n.model()),
            Err(e) => whole_condition_spec(input@) is Err && e.kind@ == whole_condition_spec(input@)->Err_0.kind
                && e.line == as_count(location(input@, whole_condition_spec(input@)->Err_0.pos).0)
                && e.column == as_count(location(input@, whole_condition_spec(input@)->Err_0.pos).1),
        },
{
    let parser = Parser::new(input);
    match parser.parse_condition_expression(0) {
        Ok((n, q)) => {
            if parser.eof(q) {
                Ok(n)
            } else {
                let f = Fail {
                    pos: q,
                    kind: ParseErrorKind::Message(owned("condition does not span the whole input")),
                };
                Err(parser.make_error(f))
            }
        },
        Err(f) => Err(parser.make_error(f)),
    }
}

} // verus!
