use vstd::prelude::*;
use vstd::string::*;
use crate::functions::Statement;
use crate::tree::{keys_unique, properties_insert, properties_view};
use crate::value::{lemma_exprs_view_push, ExprV, Expression, Value, ValueV};

verus! {

/// A parsed source file: a named module of component declarations.
#[derive(Debug)]
pub struct Module {
    pub name: String,
    pub body: Vec<ComponentDeclaration>,
}

/// A parsed component: its name, its state declarations and its template.
#[derive(Debug)]
pub struct ComponentDeclaration {
    pub name: String,
    pub statements: Vec<Statement>,
    pub tree: Node,
}

/// A node of a parsed template.
#[derive(Debug)]
pub enum Node {
    Tag(HTMLTag),
    Expression(Expression),
    Text(String),
    Empty,
}

/// A parsed element: name, children in order, attributes with unique keys.
#[derive(Debug)]
pub struct HTMLTag {
    pub name: String,
    pub children: Vec<Node>,
    pub properties: Vec<(String, String)>,
}

/// The grammar construct being read where parsing stopped.
#[derive(Clone, Copy, PartialEq, Eq, Structural, Debug)]
pub enum Construct {
    Module,
    Component,
    Statement,
    HtmlTag,
    ClosingTag,
    /// A closing tag whose name differs from the opening tag's.
    MatchingClosingTag,
    MustacheExpression,
    Expression,
    FormatString,
    Value,
}

/// Where and in what construct a source failed to parse.
#[derive(Clone, Copy, PartialEq, Eq, Structural, Debug)]
pub struct ParseError {
    pub position: usize,
    pub expected: Construct,
}

impl HTMLTag {
    pub fn new(name: String, children: Vec<Node>, properties: Vec<(String, String)>) -> (r: HTMLTag)
        requires
            keys_unique(properties_view(properties@)),
        ensures
            r.name == name,
            r.children == children,
            r.properties == properties,
    {
        HTMLTag { name, children, properties }
    }
}

// ---- models -------------------------------------------------------------

pub enum PNodeV {
    Tag(TagV),
    Expression(ExprV),
    Text(Seq<char>),
    Empty,
}

pub struct TagV {
    pub name: Seq<char>,
    pub children: Seq<PNodeV>,
    pub properties: Seq<(Seq<char>, Seq<char>)>,
}

pub struct DeclV {
    pub name: Seq<char>,
    pub statements: Seq<(Seq<char>, ExprV)>,
    pub tree: PNodeV,
}

pub struct ModuleV {
    pub name: Seq<char>,
    pub body: Seq<DeclV>,
}

pub open spec fn pnode_view(n: Node) -> PNodeV
    decreases n,
{
    match n {
        Node::Tag(t) => PNodeV::Tag(TagV {
            name: t.name@,
            children: pnodes_view(t.children@),
            properties: properties_view(t.properties@),
        }),
        Node::Expression(e) => PNodeV::Expression(e@),
        Node::Text(t) => PNodeV::Text(t@),
        Node::Empty => PNodeV::Empty,
    }
}

pub open spec fn pnodes_view(v: Seq<Node>) -> Seq<PNodeV>
    decreases v,
{
    if v.len() == 0 {
        Seq::empty()
    } else {
        pnodes_view(v.drop_last()).push(pnode_view(v.last()))
    }
}

impl View for Node {
    type V = PNodeV;

    open spec fn view(&self) -> PNodeV {
        pnode_view(*self)
    }
}

impl View for HTMLTag {
    type V = TagV;

    open spec fn view(&self) -> TagV {
        TagV { name: self.name@, children: pnodes_view(self.children@), properties: properties_view(self.properties@) }
    }
}

pub open spec fn statement_view(s: Statement) -> (Seq<char>, ExprV) {
    match s {
        Statement::Assignment(k, e) => (k@, e@),
    }
}

pub open spec fn statements_view(v: Seq<Statement>) -> Seq<(Seq<char>, ExprV)> {
    v.map_values(|s: Statement| statement_view(s))
}

impl View for ComponentDeclaration {
    type V = DeclV;

    open spec fn view(&self) -> DeclV {
        DeclV { name: self.name@, statements: statements_view(self.statements@), tree: self.tree@ }
    }
}

impl View for Module {
    type V = ModuleV;

    open spec fn view(&self) -> ModuleV {
        ModuleV { name: self.name@, body: self.body@.map_values(|d: ComponentDeclaration| d@) }
    }
}

// ---- lexical level ------------------------------------------------------

/// Outcome of reading a construct at a position: the value and the position after
/// it, or where and in what construct reading failed.
pub type PResult<T> = Result<(T, int), (int, Construct)>;

pub open spec fn is_ws(c: char) -> bool {
    c == ' ' || c == '\t' || c == '\n' || c == '\r'
}

pub open spec fn is_ident_start(c: char) -> bool {
    ('a' <= c && c <= 'z') || ('A' <= c && c <= 'Z') || c == '_'
}

pub open spec fn is_digit(c: char) -> bool {
    '0' <= c && c <= '9'
}

pub open spec fn is_ident_char(c: char) -> bool {
    is_ident_start(c) || is_digit(c)
}

/// First position at or after `i` that holds no whitespace.
pub open spec fn skip_ws(s: Seq<char>, i: int) -> int
    decreases s.len() - i,
{
    if 0 <= i < s.len() && is_ws(s[i]) {
        skip_ws(s, i + 1)
    } else {
        i
    }
}

/// First position at or after `i` that holds no identifier character.
pub open spec fn ident_end(s: Seq<char>, i: int) -> int
    decreases s.len() - i,
{
    if 0 <= i < s.len() && is_ident_char(s[i]) {
        ident_end(s, i + 1)
    } else {
        i
    }
}

/// First position at or after `i` that holds no digit.
pub open spec fn digits_end(s: Seq<char>, i: int) -> int
    decreases s.len() - i,
{
    if 0 <= i < s.len() && is_digit(s[i]) {
        digits_end(s, i + 1)
    } else {
        i
    }
}

/// First position at or after `i` that holds `stop` or `stop2`, or the end.
pub open spec fn find_stop(s: Seq<char>, i: int, stop: char, stop2: char) -> int
    decreases s.len() - i,
{
    if 0 <= i < s.len() && s[i] != stop && s[i] != stop2 {
        find_stop(s, i + 1, stop, stop2)
    } else {
        i
    }
}

/// The keyword `kw` at `p`, followed by whitespace.
pub open spec fn keyword_at(s: Seq<char>, p: int, kw: Seq<char>) -> bool {
    0 <= p && p + kw.len() < s.len() && s.subrange(p, p + kw.len()) == kw && is_ws(s[p + kw.len()])
}

pub open spec fn char_at(s: Seq<char>, p: int, c: char) -> bool {
    0 <= p < s.len() && s[p] == c
}

/// Value of a run of decimal digits.
pub open spec fn digits_value(d: Seq<char>) -> int
    decreases d.len(),
{
    if d.len() == 0 {
        0
    } else {
        10 * digits_value(d.drop_last()) + (d.last() as int - '0' as int)
    }
}

/// Text with trailing whitespace removed.
pub open spec fn trim_end(t: Seq<char>) -> Seq<char>
    decreases t.len(),
{
    if t.len() > 0 && is_ws(t.last()) {
        trim_end(t.drop_last())
    } else {
        t
    }
}

pub proof fn lemma_skip_ws(s: Seq<char>, i: int)
    ensures
        skip_ws(s, i) >= i,
        0 <= i <= s.len() ==> skip_ws(s, i) <= s.len(),
        forall|k: int| i <= k < skip_ws(s, i) ==> is_ws(#[trigger] s[k]),
        0 <= skip_ws(s, i) < s.len() ==> !is_ws(s[skip_ws(s, i)]),
    decreases s.len() - i,
{
    if 0 <= i < s.len() && is_ws(s[i]) {
        lemma_skip_ws(s, i + 1);
    }
}

pub proof fn lemma_ident_end(s: Seq<char>, i: int)
    ensures
        ident_end(s, i) >= i,
        0 <= i <= s.len() ==> ident_end(s, i) <= s.len(),
        forall|k: int| i <= k < ident_end(s, i) ==> is_ident_char(#[trigger] s[k]),
        0 <= ident_end(s, i) < s.len() ==> !is_ident_char(s[ident_end(s, i)]),
    decreases s.len() - i,
{
    if 0 <= i < s.len() && is_ident_char(s[i]) {
        lemma_ident_end(s, i + 1);
    }
}

pub proof fn lemma_digits_end(s: Seq<char>, i: int)
    ensures
        digits_end(s, i) >= i,
        0 <= i <= s.len() ==> digits_end(s, i) <= s.len(),
        forall|k: int| i <= k < digits_end(s, i) ==> is_digit(#[trigger] s[k]),
        0 <= digits_end(s, i) < s.len() ==> !is_digit(s[digits_end(s, i)]),
    decreases s.len() - i,
{
    if 0 <= i < s.len() && is_digit(s[i]) {
        lemma_digits_end(s, i + 1);
    }
}

pub proof fn lemma_find_stop(s: Seq<char>, i: int, stop: char, stop2: char)
    ensures
        find_stop(s, i, stop, stop2) >= i,
        0 <= i <= s.len() ==> find_stop(s, i, stop, stop2) <= s.len(),
        forall|k: int| i <= k < find_stop(s, i, stop, stop2) ==> #[trigger] s[k] != stop && s[k] != stop2,
        0 <= find_stop(s, i, stop, stop2) < s.len() ==> (s[find_stop(s, i, stop, stop2)] == stop
            || s[find_stop(s, i, stop, stop2)] == stop2),
    decreases s.len() - i,
{
    if 0 <= i < s.len() && s[i] != stop && s[i] != stop2 {
        lemma_find_stop(s, i + 1, stop, stop2);
    }
}

/// An identifier after optional whitespace.
pub open spec fn parse_ident(s: Seq<char>, i: int, label: Construct) -> PResult<Seq<char>> {
    let p = skip_ws(s, i);
    if 0 <= p < s.len() && is_ident_start(s[p]) {
        let e = ident_end(s, p + 1);
        Ok((s.subrange(p, e), e))
    } else {
        Err((p, label))
    }
}

/// `value := integer | ident`; an integer starting with 0 is that one digit.
pub open spec fn parse_value(s: Seq<char>, i: int) -> PResult<ValueV> {
    let p = skip_ws(s, i);
    if 0 <= p < s.len() && is_digit(s[p]) {
        let e = if s[p] == '0' { p + 1 } else { digits_end(s, p) };
        let n = digits_value(s.subrange(p, e));
        if n <= i64::MAX {
            Ok((ValueV::Num(n), e))
        } else {
            Err((p, Construct::Value))
        }
    } else if 0 <= p < s.len() && is_ident_start(s[p]) {
        let e = ident_end(s, p + 1);
        Ok((ValueV::Var(s.subrange(p, e)), e))
    } else {
        Err((p, Construct::Value))
    }
}

/// The parts of a format string from `i` (inside the quotes) to its closing quote.
pub open spec fn parse_format_parts(s: Seq<char>, i: int, acc: Seq<ExprV>) -> PResult<Seq<ExprV>>
    decreases s.len() - i via parse_format_parts_decreases
{
    if i < 0 || i >= s.len() {
        Err((i, Construct::FormatString))
    } else if s[i] == '"' {
        Ok((acc, i + 1))
    } else if s[i] == '$' {
        if i + 1 < s.len() && is_ident_start(s[i + 1]) {
            let e = ident_end(s, i + 2);
            parse_format_parts(s, e, acc.push(ExprV::Variable(s.subrange(i + 1, e))))
        } else {
            Err((i + 1, Construct::FormatString))
        }
    } else {
        let e = find_stop(s, i, '"', '$');
        parse_format_parts(s, e, acc.push(ExprV::Literal(ValueV::Str(s.subrange(i, e)))))
    }
}

#[via_fn]
proof fn parse_format_parts_decreases(s: Seq<char>, i: int, acc: Seq<ExprV>) {
    lemma_ident_end(s, i + 2);
    lemma_find_stop(s, i, '"', '$');
}

/// `expression := value | formatString`.
pub open spec fn parse_expression(s: Seq<char>, i: int) -> PResult<ExprV> {
    let p = skip_ws(s, i);
    if char_at(s, p, '"') {
        match parse_format_parts(s, p + 1, Seq::empty()) {
            Ok((parts, e)) => Ok((ExprV::FormatString(parts), e)),
            Err(err) => Err(err),
        }
    } else if 0 <= p < s.len() && (is_digit(s[p]) || is_ident_start(s[p])) {
        match parse_value(s, p) {
            Ok((v, e)) => Ok((ExprV::Literal(v), e)),
            Err(err) => Err(err),
        }
    } else {
        Err((p, Construct::Expression))
    }
}

/// `mustache := "{" expression "}"`.
pub open spec fn parse_mustache(s: Seq<char>, i: int) -> PResult<ExprV> {
    let p = skip_ws(s, i);
    if !char_at(s, p, '{') {
        Err((p, Construct::MustacheExpression))
    } else {
        match parse_expression(s, p + 1) {
            Err(err) => Err(err),
            Ok((e, q)) => {
                let r = skip_ws(s, q);
                if char_at(s, r, '}') {
                    Ok((e, r + 1))
                } else {
                    Err((r, Construct::MustacheExpression))
                }
            },
        }
    }
}

/// Attributes from `i` up to and including the `>` that ends an opening tag.
pub open spec fn parse_attributes(s: Seq<char>, i: int, acc: Seq<(Seq<char>, Seq<char>)>) -> PResult<Seq<(Seq<char>, Seq<char>)>>
    decreases s.len() - i via parse_attributes_decreases
{
    let q = skip_ws(s, i);
    if char_at(s, q, '>') {
        Ok((acc, q + 1))
    } else if 0 <= q < s.len() && is_ident_start(s[q]) {
        let e = ident_end(s, q + 1);
        let r = skip_ws(s, e);
        if !char_at(s, r, '=') {
            Err((r, Construct::HtmlTag))
        } else {
            let t = skip_ws(s, r + 1);
            if !char_at(s, t, '"') {
                Err((t, Construct::HtmlTag))
            } else {
                let v = find_stop(s, t + 1, '"', '"');
                if v >= s.len() {
                    Err((v, Construct::HtmlTag))
                } else {
                    parse_attributes(s, v + 1, properties_insert(acc, s.subrange(q, e), s.subrange(t + 1, v)))
                }
            }
        }
    } else {
        Err((q, Construct::HtmlTag))
    }
}

#[via_fn]
proof fn parse_attributes_decreases(s: Seq<char>, i: int, acc: Seq<(Seq<char>, Seq<char>)>) {
    let q = skip_ws(s, i);
    lemma_skip_ws(s, i);
    lemma_ident_end(s, q + 1);
    let e = ident_end(s, q + 1);
    lemma_skip_ws(s, e);
    let r = skip_ws(s, e);
    lemma_skip_ws(s, r + 1);
    let t = skip_ws(s, r + 1);
    lemma_find_stop(s, t + 1, '"', '"');
}

/// `tag := "<" ident attribute* ">" child* "</" ident ">"`, the two names equal.
pub open spec fn parse_tag(s: Seq<char>, i: int) -> PResult<TagV>
    decreases s.len() - i, 0nat via parse_tag_decreases
{
    let p = skip_ws(s, i);
    if !(0 <= i && char_at(s, p, '<')) {
        Err((p, Construct::HtmlTag))
    } else {
        match parse_ident(s, p + 1, Construct::HtmlTag) {
            Err(err) => Err(err),
            Ok((name, e)) => match parse_attributes(s, e, Seq::empty()) {
                Err(err) => Err(err),
                Ok((props, a)) => if p < a <= s.len() {
                    match parse_children(s, name, a, Seq::empty()) {
                        Err(err) => Err(err),
                        Ok((children, c)) => Ok((TagV { name, children, properties: props }, c)),
                    }
                } else {
                    Err((p, Construct::HtmlTag))
                },
            },
        }
    }
}

#[via_fn]
proof fn parse_tag_decreases(s: Seq<char>, i: int) {
    lemma_skip_ws(s, i);
}

/// Children from `i` up to and including the closing tag of `name`.
pub open spec fn parse_children(s: Seq<char>, name: Seq<char>, i: int, acc: Seq<PNodeV>) -> PResult<Seq<PNodeV>>
    decreases s.len() - i, 1nat via parse_children_decreases
{
    let q = skip_ws(s, i);
    if !(0 <= i <= q && q < s.len()) {
        Err((q, Construct::ClosingTag))
    } else if s[q] == '<' && char_at(s, q + 1, '/') {
        match parse_ident(s, q + 2, Construct::ClosingTag) {
            Err(err) => Err(err),
            Ok((closing, e)) => {
                let r = skip_ws(s, e);
                if !char_at(s, r, '>') {
                    Err((r, Construct::ClosingTag))
                } else if closing != name {
                    Err((q, Construct::MatchingClosingTag))
                } else {
                    Ok((acc, r + 1))
                }
            },
        }
    } else if s[q] == '<' {
        match parse_tag(s, q) {
            Err(err) => Err(err),
            Ok((t, e)) => if q < e <= s.len() {
                parse_children(s, name, e, acc.push(PNodeV::Tag(t)))
            } else {
                Err((q, Construct::HtmlTag))
            },
        }
    } else if s[q] == '{' {
        match parse_mustache(s, q) {
            Err(err) => Err(err),
            Ok((x, e)) => if q < e <= s.len() {
                parse_children(s, name, e, acc.push(PNodeV::Expression(x)))
            } else {
                Err((q, Construct::MustacheExpression))
            },
        }
    } else {
        let e = find_stop(s, q, '<', '{');
        if q < e <= s.len() {
            parse_children(s, name, e, acc.push(PNodeV::Text(trim_end(s.subrange(q, e)))))
        } else {
            Err((q, Construct::HtmlTag))
        }
    }
}

#[via_fn]
proof fn parse_children_decreases(s: Seq<char>, name: Seq<char>, i: int, acc: Seq<PNodeV>) {
    lemma_skip_ws(s, i);
}

/// State declarations `state ident = value`, as assignments of literals.
pub open spec fn parse_statements(s: Seq<char>, i: int, acc: Seq<(Seq<char>, ExprV)>) -> PResult<Seq<(Seq<char>, ExprV)>>
    decreases s.len() - i,
{
    let q = skip_ws(s, i);
    if !(0 <= i <= q && q <= s.len()) {
        Err((q, Construct::Statement))
    } else if keyword_at(s, q, "state"@) {
        match parse_ident(s, q + 6, Construct::Statement) {
            Err(err) => Err(err),
            Ok((name, e)) => {
                let r = skip_ws(s, e);
                if !char_at(s, r, '=') {
                    Err((r, Construct::Statement))
                } else {
                    match parse_value(s, r + 1) {
                        Err(err) => Err(err),
                        Ok((v, f)) => if q < f <= s.len() {
                            parse_statements(s, f, acc.push((name, ExprV::Literal(v))))
                        } else {
                            Err((q, Construct::Statement))
                        },
                    }
                }
            },
        }
    } else {
        Ok((acc, q))
    }
}

/// The template of a component: one tag, or nothing.
pub open spec fn parse_template(s: Seq<char>, i: int) -> PResult<PNodeV> {
    let q = skip_ws(s, i);
    if char_at(s, q, '<') {
        match parse_tag(s, q) {
            Ok((t, e)) => Ok((PNodeV::Tag(t), e)),
            Err(err) => Err(err),
        }
    } else {
        Ok((PNodeV::Empty, q))
    }
}

/// `component := "component" ident "(" ")" "{" stateDecl* templateBody "}"`, from
/// the keyword at `q`.
pub open spec fn parse_component(s: Seq<char>, q: int) -> PResult<DeclV> {
    match parse_ident(s, q + 10, Construct::Component) {
        Err(err) => Err(err),
        Ok((name, e)) => {
            let a = skip_ws(s, e);
            let b = skip_ws(s, a + 1);
            let c = skip_ws(s, b + 1);
            if !char_at(s, a, '(') {
                Err((a, Construct::Component))
            } else if !char_at(s, b, ')') {
                Err((b, Construct::Component))
            } else if !char_at(s, c, '{') {
                Err((c, Construct::Component))
            } else {
                match parse_statements(s, c + 1, Seq::empty()) {
                    Err(err) => Err(err),
                    Ok((statements, d)) => match parse_template(s, d) {
                        Err(err) => Err(err),
                        Ok((tree, f)) => {
                            let r = skip_ws(s, f);
                            if char_at(s, r, '}') {
                                Ok((DeclV { name, statements, tree }, r + 1))
                            } else {
                                Err((r, Construct::Component))
                            }
                        },
                    },
                }
            }
        },
    }
}

/// Components from `i` to the end of the source.
pub open spec fn parse_components(s: Seq<char>, i: int, acc: Seq<DeclV>) -> PResult<Seq<DeclV>>
    decreases s.len() - i,
{
    let q = skip_ws(s, i);
    if !(0 <= i <= q && q <= s.len()) {
        Err((q, Construct::Component))
    } else if q == s.len() {
        Ok((acc, q))
    } else if keyword_at(s, q, "component"@) {
        match parse_component(s, q) {
            Err(err) => Err(err),
            Ok((d, e)) => if q < e <= s.len() {
                parse_components(s, e, acc.push(d))
            } else {
                Err((q, Construct::Component))
            },
        }
    } else {
        Err((q, Construct::Component))
    }
}

/// `module := "module" ident component*`, covering the whole source.
pub open spec fn module_of(s: Seq<char>) -> Result<ModuleV, (int, Construct)> {
    let p = skip_ws(s, 0);
    if !keyword_at(s, p, "module"@) {
        Err((p, Construct::Module))
    } else {
        match parse_ident(s, p + 7, Construct::Module) {
            Err(err) => Err(err),
            Ok((name, e)) => match parse_components(s, e, Seq::empty()) {
                Err(err) => Err(err),
                Ok((body, _)) => Ok(ModuleV { name, body }),
            },
        }
    }
}

// ---- executable parser --------------------------------------------------

/// Whether an error is the modelled one.
pub open spec fn failed_as(err: ParseError, m: (int, Construct)) -> bool {
    err.position as int == m.0 && err.expected == m.1
}

fn fail(position: usize, expected: Construct) -> (r: ParseError)
    ensures
        r.position == position,
        r.expected == expected,
{
    ParseError { position, expected }
}

fn is_ws_char(c: char) -> (r: bool)
    ensures
        r == is_ws(c),
{
    c == ' ' || c == '\t' || c == '\n' || c == '\r'
}

fn is_ident_start_char(c: char) -> (r: bool)
    ensures
        r == is_ident_start(c),
{
    ('a' <= c && c <= 'z') || ('A' <= c && c <= 'Z') || c == '_'
}

fn is_digit_char(c: char) -> (r: bool)
    ensures
        r == is_digit(c),
{
    '0' <= c && c <= '9'
}

fn is_ident_char_exec(c: char) -> (r: bool)
    ensures
        r == is_ident_char(c),
{
    is_ident_start_char(c) || is_digit_char(c)
}

fn skip_ws_at(cs: &Vec<char>, i: usize) -> (r: usize)
    requires
        i <= cs@.len(),
    ensures
        r as int == skip_ws(cs@, i as int),
        i <= r <= cs@.len(),
{
    let mut k = i;
    while k < cs.len() && is_ws_char(cs[k])
        invariant
            i <= k <= cs@.len(),
            skip_ws(cs@, i as int) == skip_ws(cs@, k as int),
        decreases cs.len() - k,
    {
        k = k + 1;
    }
    k
}

fn ident_end_at(cs: &Vec<char>, i: usize) -> (r: usize)
    requires
        i <= cs@.len(),
    ensures
        r as int == ident_end(cs@, i as int),
        i <= r <= cs@.len(),
{
    let mut k = i;
    while k < cs.len() && is_ident_char_exec(cs[k])
        invariant
            i <= k <= cs@.len(),
            ident_end(cs@, i as int) == ident_end(cs@, k as int),
        decreases cs.len() - k,
    {
        k = k + 1;
    }
    k
}

fn digits_end_at(cs: &Vec<char>, i: usize) -> (r: usize)
    requires
        i <= cs@.len(),
    ensures
        r as int == digits_end(cs@, i as int),
        i <= r <= cs@.len(),
{
    let mut k = i;
    while k < cs.len() && is_digit_char(cs[k])
        invariant
            i <= k <= cs@.len(),
            digits_end(cs@, i as int) == digits_end(cs@, k as int),
        decreases cs.len() - k,
    {
        k = k + 1;
    }
    k
}

fn find_stop_at(cs: &Vec<char>, i: usize, stop: char, stop2: char) -> (r: usize)
    requires
        i <= cs@.len(),
    ensures
        r as int == find_stop(cs@, i as int, stop, stop2),
        i <= r <= cs@.len(),
{
    let mut k = i;
    while k < cs.len() && cs[k] != stop && cs[k] != stop2
        invariant
            i <= k <= cs@.len(),
            find_stop(cs@, i as int, stop, stop2) == find_stop(cs@, k as int, stop, stop2),
        decreases cs.len() - k,
    {
        k = k + 1;
    }
    k
}

fn char_at_exec(cs: &Vec<char>, p: usize, c: char) -> (r: bool)
    ensures
        r == char_at(cs@, p as int, c),
        r ==> p < cs.len(),
{
    p < cs.len() && cs[p] == c
}

fn keyword_at_exec(cs: &Vec<char>, p: usize, kw: &str) -> (r: bool)
    ensures
        r == keyword_at(cs@, p as int, kw@),
{
    let n = kw.unicode_len();
    if p >= cs.len() || n >= cs.len() - p {
        return false;
    }
    let mut k: usize = 0;
    while k < n
        invariant
            0 <= k <= n,
            n as int == kw@.len(),
            p + n < cs@.len(),
            cs@.len() == cs.len(),
            cs@.subrange(p as int, p + k) == kw@.take(k as int),
        decreases n - k,
    {
        if cs[p + k] != kw.get_char(k) {
            assert(cs@.subrange(p as int, p + n)[k as int] != kw@[k as int]);
            return false;
        }
        proof {
            assert(cs@.subrange(p as int, p + k + 1) =~= kw@.take(k as int + 1));
        }
        k = k + 1;
    }
    proof {
        assert(kw@.take(n as int) =~= kw@);
    }
    is_ws_char(cs[p + n])
}

/// The source text between two positions.
fn text_between(src: &str, cs: &Vec<char>, from: usize, to: usize) -> (r: String)
    requires
        cs@ == src@,
        from <= to <= cs@.len(),
    ensures
        r@ == cs@.subrange(from as int, to as int),
{
    String::from_str(src.substring_char(from, to))
}

fn parse_ident_at(src: &str, cs: &Vec<char>, i: usize, label: Construct) -> (r: Result<(String, usize), ParseError>)
    requires
        cs@ == src@,
        i <= cs@.len(),
    ensures
        match parse_ident(cs@, i as int, label) {
            Ok((v, e)) => r matches Ok((x, f)) && x@ == v && f as int == e && i < f <= cs@.len(),
            Err(m) => r matches Err(err) && failed_as(err, m),
        },
{
    let p = skip_ws_at(cs, i);
    if p < cs.len() && is_ident_start_char(cs[p]) {
        let e = ident_end_at(cs, p + 1);
        Ok((text_between(src, cs, p, e), e))
    } else {
        Err(fail(p, label))
    }
}

fn digit_value(c: char) -> (r: i64)
    requires
        is_digit(c),
    ensures
        r as int == c as int - '0' as int,
        0 <= r < 10,
{
    (c as u32 - '0' as u32) as i64
}

/// Value of the digits between two positions, if it fits an `i64`.
fn number_between(cs: &Vec<char>, from: usize, to: usize) -> (r: Option<i64>)
    requires
        from <= to <= cs@.len(),
        forall|k: int| from <= k < to ==> is_digit(#[trigger] cs@[k]),
    ensures
        match r {
            Some(n) => n as int == digits_value(cs@.subrange(from as int, to as int)),
            None => digits_value(cs@.subrange(from as int, to as int)) > i64::MAX,
        },
{
    let mut acc: i64 = 0;
    let mut too_big = false;
    let mut k = from;
    while k < to
        invariant
            from <= k <= to <= cs@.len(),
            forall|j: int| from <= j < to ==> is_digit(#[trigger] cs@[j]),
            digits_value(cs@.subrange(from as int, k as int)) >= 0,
            too_big ==> digits_value(cs@.subrange(from as int, k as int)) > i64::MAX,
            !too_big ==> acc as int == digits_value(cs@.subrange(from as int, k as int)) && acc >= 0,
        decreases to - k,
    {
        let d = digit_value(cs[k]);
        proof {
            assert(cs@.subrange(from as int, k as int + 1).drop_last() == cs@.subrange(from as int, k as int));
            assert(cs@.subrange(from as int, k as int + 1).last() == cs@[k as int]);
        }
        if !too_big {
            let wide: i128 = acc as i128 * 10 + d as i128;
            if wide > i64::MAX as i128 {
                too_big = true;
            } else {
                acc = wide as i64;
            }
        }
        k = k + 1;
    }
    if too_big {
        None
    } else {
        Some(acc)
    }
}

fn parse_value_at(src: &str, cs: &Vec<char>, i: usize) -> (r: Result<(Value, usize), ParseError>)
    requires
        cs@ == src@,
        i <= cs@.len(),
    ensures
        match parse_value(cs@, i as int) {
            Ok((v, e)) => r matches Ok((x, f)) && x@ == v && f as int == e && i < f <= cs@.len(),
            Err(m) => r matches Err(err) && failed_as(err, m),
        },
{
    let p = skip_ws_at(cs, i);
    if p < cs.len() && is_digit_char(cs[p]) {
        let e = if cs[p] == '0' { p + 1 } else { digits_end_at(cs, p) };
        proof {
            lemma_digits_end(cs@, p as int);
        }
        match number_between(cs, p, e) {
            Some(n) => Ok((Value::Number(n), e)),
            None => Err(fail(p, Construct::Value)),
        }
    } else if p < cs.len() && is_ident_start_char(cs[p]) {
        let e = ident_end_at(cs, p + 1);
        Ok((Value::Variable(text_between(src, cs, p, e)), e))
    } else {
        Err(fail(p, Construct::Value))
    }
}

fn parse_format_string_at(src: &str, cs: &Vec<char>, i: usize) -> (r: Result<(Vec<Expression>, usize), ParseError>)
    requires
        cs@ == src@,
        i <= cs@.len(),
    ensures
        match parse_format_parts(cs@, i as int, Seq::empty()) {
            Ok((v, e)) => r matches Ok((x, f)) && crate::value::exprs_view(x@) == v && f as int == e && i < f <= cs@.len(),
            Err(m) => r matches Err(err) && failed_as(err, m),
        },
{
    let mut parts: Vec<Expression> = Vec::new();
    let mut k = i;
    proof {
        assert(crate::value::exprs_view(parts@) =~= Seq::<ExprV>::empty());
    }
    loop
        invariant
            cs@ == src@,
            i <= k <= cs@.len(),
            parse_format_parts(cs@, i as int, Seq::empty()) == parse_format_parts(cs@, k as int, crate::value::exprs_view(parts@)),
        decreases cs.len() - k,
    {
        let ghost acc = crate::value::exprs_view(parts@);
        if k >= cs.len() {
            return Err(fail(k, Construct::FormatString));
        } else if cs[k] == '"' {
            return Ok((parts, k + 1));
        } else if cs[k] == '$' {
            if k + 1 < cs.len() && is_ident_start_char(cs[k + 1]) {
                let e = ident_end_at(cs, k + 2);
                let name = text_between(src, cs, k + 1, e);
                let ghost before = parts@;
                parts.push(Expression::Variable(name));
                proof {
                    lemma_exprs_view_push(before, Expression::Variable(name));
                }
                k = e;
            } else {
                return Err(fail(k + 1, Construct::FormatString));
            }
        } else {
            let e = find_stop_at(cs, k, '"', '$');
            proof {
                lemma_find_stop(cs@, k as int, '"', '$');
            }
            let t = text_between(src, cs, k, e);
            let ghost before = parts@;
            let x = Expression::Literal(Value::String(t));
            proof {
                lemma_exprs_view_push(before, x);
            }
            parts.push(x);
            k = e;
        }
    }
}

fn parse_expression_at(src: &str, cs: &Vec<char>, i: usize) -> (r: Result<(Expression, usize), ParseError>)
    requires
        cs@ == src@,
        i <= cs@.len(),
    ensures
        match parse_expression(cs@, i as int) {
            Ok((v, e)) => r matches Ok((x, f)) && x@ == v && f as int == e && i < f <= cs@.len(),
            Err(m) => r matches Err(err) && failed_as(err, m),
        },
{
    let p = skip_ws_at(cs, i);
    if char_at_exec(cs, p, '"') {
        match parse_format_string_at(src, cs, p + 1) {
            Ok((parts, e)) => Ok((Expression::FormatString(parts), e)),
            Err(err) => Err(err),
        }
    } else if p < cs.len() && (is_digit_char(cs[p]) || is_ident_start_char(cs[p])) {
        proof {
            lemma_skip_ws(cs@, p as int);
            assert(skip_ws(cs@, p as int) == p);
        }
        match parse_value_at(src, cs, p) {
            Ok((v, e)) => Ok((Expression::Literal(v), e)),
            Err(err) => Err(err),
        }
    } else {
        Err(fail(p, Construct::Expression))
    }
}

fn parse_mustache_at(src: &str, cs: &Vec<char>, i: usize) -> (r: Result<(Expression, usize), ParseError>)
    requires
        cs@ == src@,
        i <= cs@.len(),
    ensures
        match parse_mustache(cs@, i as int) {
            Ok((v, e)) => r matches Ok((x, f)) && x@ == v && f as int == e && i < f <= cs@.len(),
            Err(m) => r matches Err(err) && failed_as(err, m),
        },
{
    let p = skip_ws_at(cs, i);
    if !char_at_exec(cs, p, '{') {
        return Err(fail(p, Construct::MustacheExpression));
    }
    match parse_expression_at(src, cs, p + 1) {
        Err(err) => Err(err),
        Ok((e, q)) => {
            let r = skip_ws_at(cs, q);
            if char_at_exec(cs, r, '}') {
                Ok((e, r + 1))
            } else {
                Err(fail(r, Construct::MustacheExpression))
            }
        },
    }
}

fn parse_attributes_at(src: &str, cs: &Vec<char>, i: usize) -> (r: Result<(Vec<(String, String)>, usize), ParseError>)
    requires
        cs@ == src@,
        i <= cs@.len(),
    ensures
        match parse_attributes(cs@, i as int, Seq::empty()) {
            Ok((v, e)) => r matches Ok((x, f)) && properties_view(x@) == v && keys_unique(v) && f as int == e && i < f <= cs@.len(),
            Err(m) => r matches Err(err) && failed_as(err, m),
        },
{
    let mut tag = crate::tree::Tag::new(String::new(), String::new(), Vec::new());
    let mut k = i;
    proof {
        assert(properties_view(tag.properties@) =~= Seq::<(Seq<char>, Seq<char>)>::empty());
    }
    loop
        invariant
            cs@ == src@,
            i <= k <= cs@.len(),
            keys_unique(properties_view(tag.properties@)),
            parse_attributes(cs@, i as int, Seq::empty()) == parse_attributes(cs@, k as int, properties_view(tag.properties@)),
        decreases cs.len() - k,
    {
        let q = skip_ws_at(cs, k);
        if char_at_exec(cs, q, '>') {
            return Ok((tag.properties, q + 1));
        } else if q < cs.len() && is_ident_start_char(cs[q]) {
            let e = ident_end_at(cs, q + 1);
            let r = skip_ws_at(cs, e);
            if !char_at_exec(cs, r, '=') {
                return Err(fail(r, Construct::HtmlTag));
            }
            let t = skip_ws_at(cs, r + 1);
            if !char_at_exec(cs, t, '"') {
                return Err(fail(t, Construct::HtmlTag));
            }
            let v = find_stop_at(cs, t + 1, '"', '"');
            if v >= cs.len() {
                return Err(fail(v, Construct::HtmlTag));
            }
            let key = text_between(src, cs, q, e);
            let value = text_between(src, cs, t + 1, v);
            tag = tag.property(key, value);
            k = v + 1;
        } else {
            return Err(fail(q, Construct::HtmlTag));
        }
    }
}

/// End of the text run at `q` without its trailing whitespace.
fn trimmed_end(cs: &Vec<char>, q: usize, e: usize) -> (r: usize)
    requires
        q <= e <= cs@.len(),
    ensures
        q <= r <= e,
        cs@.subrange(q as int, r as int) == trim_end(cs@.subrange(q as int, e as int)),
{
    let mut k = e;
    while k > q && is_ws_char(cs[k - 1])
        invariant
            q <= k <= e <= cs@.len(),
            trim_end(cs@.subrange(q as int, e as int)) == trim_end(cs@.subrange(q as int, k as int)),
        decreases k,
    {
        proof {
            assert(cs@.subrange(q as int, k as int).drop_last() == cs@.subrange(q as int, k as int - 1));
        }
        k = k - 1;
    }
    k
}

pub proof fn lemma_pnodes_view_len(v: Seq<Node>)
    ensures
        pnodes_view(v).len() == v.len(),
        forall|i: int| 0 <= i < v.len() ==> #[trigger] pnodes_view(v)[i] == v[i]@,
    decreases v.len(),
{
    if v.len() > 0 {
        lemma_pnodes_view_len(v.drop_last());
        assert forall|i: int| 0 <= i < v.len() implies #[trigger] pnodes_view(v)[i] == v[i]@ by {
            if i < v.len() - 1 {
                assert(v.drop_last()[i] == v[i]);
            }
        }
    }
}

pub proof fn lemma_pnodes_view_push(v: Seq<Node>, x: Node)
    ensures
        pnodes_view(v.push(x)) == pnodes_view(v).push(x@),
{
    assert(v.push(x).drop_last() == v);
}

fn parse_tag_at(src: &str, cs: &Vec<char>, i: usize) -> (r: Result<(HTMLTag, usize), ParseError>)
    requires
        cs@ == src@,
        i <= cs@.len(),
    ensures
        match parse_tag(cs@, i as int) {
            Ok((v, e)) => r matches Ok((x, f)) && x@ == v && keys_unique(v.properties) && f as int == e && i < f <= cs@.len(),
            Err(m) => r matches Err(err) && failed_as(err, m),
        },
    decreases cs@.len() - i,
{
    let p = skip_ws_at(cs, i);
    if !char_at_exec(cs, p, '<') {
        return Err(fail(p, Construct::HtmlTag));
    }
    let (name, e) = match parse_ident_at(src, cs, p + 1, Construct::HtmlTag) {
        Err(err) => return Err(err),
        Ok(x) => x,
    };
    let (properties, a) = match parse_attributes_at(src, cs, e) {
        Err(err) => return Err(err),
        Ok(x) => x,
    };
    let ghost name_v = name@;
    let mut children: Vec<Node> = Vec::new();
    let mut k = a;
    proof {
        assert(pnodes_view(children@) =~= Seq::<PNodeV>::empty());
    }
    loop
        invariant
            cs@ == src@,
            p < a <= k <= cs@.len(),
            i <= p,
            name@ == name_v,
            parse_tag(cs@, i as int) == match parse_children(cs@, name_v, a as int, Seq::empty()) {
                Err(err) => Err(err),
                Ok((cn, c)) => Ok((TagV { name: name_v, children: cn, properties: properties_view(properties@) }, c)),
            },
            keys_unique(properties_view(properties@)),
            parse_children(cs@, name_v, a as int, Seq::empty()) == parse_children(cs@, name_v, k as int, pnodes_view(children@)),
        decreases cs.len() - k,
    {
        let ghost acc = pnodes_view(children@);
        let q = skip_ws_at(cs, k);
        if q >= cs.len() {
            return Err(fail(q, Construct::ClosingTag));
        }
        if cs[q] == '<' && char_at_exec(cs, q + 1, '/') {
            let (closing, e2) = match parse_ident_at(src, cs, q + 2, Construct::ClosingTag) {
                Err(err) => return Err(err),
                Ok(x) => x,
            };
            let r = skip_ws_at(cs, e2);
            if !char_at_exec(cs, r, '>') {
                return Err(fail(r, Construct::ClosingTag));
            }
            if closing != name {
                return Err(fail(q, Construct::MatchingClosingTag));
            }
            return Ok((HTMLTag { name, children, properties }, r + 1));
        } else if cs[q] == '<' {
            match parse_tag_at(src, cs, q) {
                Err(err) => return Err(err),
                Ok((t, e3)) => {
                    let ghost before = children@;
                    let x = Node::Tag(t);
                    proof {
                        lemma_pnodes_view_push(before, x);
                    }
                    children.push(x);
                    k = e3;
                },
            }
        } else if cs[q] == '{' {
            match parse_mustache_at(src, cs, q) {
                Err(err) => return Err(err),
                Ok((t, e3)) => {
                    let ghost before = children@;
                    let x = Node::Expression(t);
                    proof {
                        lemma_pnodes_view_push(before, x);
                    }
                    children.push(x);
                    k = e3;
                },
            }
        } else {
            let e4 = find_stop_at(cs, q, '<', '{');
            proof {
                lemma_find_stop(cs@, q as int + 1, '<', '{');
            }
            let t = trimmed_end(cs, q, e4);
            let text = text_between(src, cs, q, t);
            let ghost before = children@;
            let x = Node::Text(text);
            proof {
                lemma_pnodes_view_push(before, x);
            }
            children.push(x);
            k = e4;
        }
    }
}

fn parse_statements_at(src: &str, cs: &Vec<char>, i: usize) -> (r: Result<(Vec<Statement>, usize), ParseError>)
    requires
        cs@ == src@,
        i <= cs@.len(),
    ensures
        match parse_statements(cs@, i as int, Seq::empty()) {
            Ok((v, e)) => r matches Ok((x, f)) && statements_view(x@) == v && f as int == e && i <= f <= cs@.len(),
            Err(m) => r matches Err(err) && failed_as(err, m),
        },
{
    let mut statements: Vec<Statement> = Vec::new();
    let mut k = i;
    proof {
        assert(statements_view(statements@) =~= Seq::<(Seq<char>, ExprV)>::empty());
    }
    loop
        invariant
            cs@ == src@,
            i <= k <= cs@.len(),
            parse_statements(cs@, i as int, Seq::empty()) == parse_statements(cs@, k as int, statements_view(statements@)),
        decreases cs.len() - k,
    {
        let q = skip_ws_at(cs, k);
        proof {
            reveal_strlit("state");
        }
        if !keyword_at_exec(cs, q, "state") {
            return Ok((statements, q));
        }
        let (name, e) = match parse_ident_at(src, cs, q + 6, Construct::Statement) {
            Err(err) => return Err(err),
            Ok(x) => x,
        };
        let r = skip_ws_at(cs, e);
        if !char_at_exec(cs, r, '=') {
            return Err(fail(r, Construct::Statement));
        }
        let (v, f) = match parse_value_at(src, cs, r + 1) {
            Err(err) => return Err(err),
            Ok(x) => x,
        };
        let ghost before = statements@;
        statements.push(Statement::Assignment(name, Expression::Literal(v)));
        proof {
            assert(statements_view(statements@) =~= statements_view(before).push(statement_view(statements@.last())));
        }
        k = f;
    }
}

fn parse_template_at(src: &str, cs: &Vec<char>, i: usize) -> (r: Result<(Node, usize), ParseError>)
    requires
        cs@ == src@,
        i <= cs@.len(),
    ensures
        match parse_template(cs@, i as int) {
            Ok((v, e)) => r matches Ok((x, f)) && x@ == v && f as int == e && i <= f <= cs@.len(),
            Err(m) => r matches Err(err) && failed_as(err, m),
        },
{
    let q = skip_ws_at(cs, i);
    if char_at_exec(cs, q, '<') {
        match parse_tag_at(src, cs, q) {
            Ok((t, e)) => Ok((Node::Tag(t), e)),
            Err(err) => Err(err),
        }
    } else {
        Ok((Node::Empty, q))
    }
}

fn parse_component_at(src: &str, cs: &Vec<char>, q: usize) -> (r: Result<(ComponentDeclaration, usize), ParseError>)
    requires
        cs@ == src@,
        keyword_at(cs@, q as int, "component"@),
    ensures
        match parse_component(cs@, q as int) {
            Ok((v, e)) => r matches Ok((x, f)) && x@ == v && f as int == e && q < f <= cs@.len(),
            Err(m) => r matches Err(err) && failed_as(err, m),
        },
{
    let len = cs.len();
    proof {
        reveal_strlit("component");
        assert(q + 10 <= len);
    }
    let (name, e) = match parse_ident_at(src, cs, q + 10, Construct::Component) {
        Err(err) => return Err(err),
        Ok(x) => x,
    };
    let a = skip_ws_at(cs, e);
    if !char_at_exec(cs, a, '(') {
        return Err(fail(a, Construct::Component));
    }
    let b = skip_ws_at(cs, a + 1);
    if !char_at_exec(cs, b, ')') {
        return Err(fail(b, Construct::Component));
    }
    let c = skip_ws_at(cs, b + 1);
    if !char_at_exec(cs, c, '{') {
        return Err(fail(c, Construct::Component));
    }
    let (statements, d) = match parse_statements_at(src, cs, c + 1) {
        Err(err) => return Err(err),
        Ok(x) => x,
    };
    let (tree, f) = match parse_template_at(src, cs, d) {
        Err(err) => return Err(err),
        Ok(x) => x,
    };
    let r = skip_ws_at(cs, f);
    if char_at_exec(cs, r, '}') {
        Ok((ComponentDeclaration { name, statements, tree }, r + 1))
    } else {
        Err(fail(r, Construct::Component))
    }
}

/// The characters of a source text.
fn chars_of(src: &str) -> (r: Vec<char>)
    ensures
        r@ == src@,
{
    let n = src.unicode_len();
    let mut out: Vec<char> = Vec::new();
    let mut i: usize = 0;
    while i < n
        invariant
            0 <= i <= n,
            n as int == src@.len(),
            out@ == src@.take(i as int),
        decreases n - i,
    {
        out.push(src.get_char(i));
        proof {
            assert(out@ =~= src@.take(i as int + 1));
        }
        i = i + 1;
    }
    proof {
        assert(src@.take(n as int) =~= src@);
    }
    out
}

/// Parses a source file: a `module` header followed by component declarations,
/// up to the end of the text.
pub fn parser(source: &str) -> (r: Result<Module, ParseError>)
    ensures
        match module_of(source@) {
            Ok(m) => r matches Ok(x) && x@ == m,
            Err(m) => r matches Err(err) && failed_as(err, m),
        },
{
    let cs = chars_of(source);
    let p = skip_ws_at(&cs, 0);
    proof {
        reveal_strlit("module");
        reveal_strlit("component");
    }
    if !keyword_at_exec(&cs, p, "module") {
        return Err(fail(p, Construct::Module));
    }
    let (name, e) = match parse_ident_at(source, &cs, p + 7, Construct::Module) {
        Err(err) => return Err(err),
        Ok(x) => x,
    };
    let mut body: Vec<ComponentDeclaration> = Vec::new();
    let mut k = e;
    proof {
        assert(body@.map_values(|d: ComponentDeclaration| d@) =~= Seq::<DeclV>::empty());
    }
    loop
        invariant
            cs@ == source@,
            e <= k <= cs@.len(),
            module_of(source@) == match parse_components(cs@, e as int, Seq::empty()) {
                Err(err) => Err(err),
                Ok((b, _)) => Ok(ModuleV { name: name@, body: b }),
            },
            parse_components(cs@, e as int, Seq::empty()) == parse_components(cs@, k as int, body@.map_values(|d: ComponentDeclaration| d@)),
        decreases cs.len() - k,
    {
        let q = skip_ws_at(&cs, k);
        if q == cs.len() {
            let ghost bv = body@.map_values(|d: ComponentDeclaration| d@);
            let m = Module { name, body };
            proof {
                assert(m@.body =~= bv);
            }
            return Ok(m);
        }
        if !keyword_at_exec(&cs, q, "component") {
            return Err(fail(q, Construct::Component));
        }
        let (d, f) = match parse_component_at(source, &cs, q) {
            Err(err) => return Err(err),
            Ok(x) => x,
        };
        let ghost before = body@;
        body.push(d);
        proof {
            assert(body@.map_values(|d: ComponentDeclaration| d@) =~= before.map_values(|d: ComponentDeclaration| d@).push(body@.last()@));
        }
        k = f;
    }
}

} // verus!
