//! Templates and the renderer: evaluating an AST against a context.
use vstd::prelude::*;
use crate::ast::{AstNode, Node, lemma_models, models};
use crate::engine::MinilateEngine;
use crate::error::{ErrorModel, MinilateError};
use crate::interface::{Context, VarModel, Variable, VariableTy};
use crate::parser::{template_spec, tokenize};
use crate::text::{chars_of, is_blank, owned, same_text, slice_string};

verus! {

/// Registered templates in the model: names and the trees they parsed to.
pub type Registry = Seq<(Seq<char>, Node)>;

/// A context in the model: variables by name.
pub type Ctx = Map<Seq<char>, VarModel>;

/// What a rendering step yields: output text or an error.
pub type Rendered = Result<Seq<char>, ErrorModel>;

/// The first template named `k`.
pub open spec fn find_template(reg: Registry, k: Seq<char>) -> Option<Node>
    decreases reg.len(),
{
    if reg.len() == 0 {
        None
    } else if reg[0].0 == k {
        Some(reg[0].1)
    } else {
        find_template(reg.subrange(1, reg.len() as int), k)
    }
}

/// The truth value of a condition variable: a missing variable is false; a
/// `Boolean` is true when its data is `true`, `1` or `yes`; a `String` or an
/// `Iterable` is true when it has non-empty data.
pub open spec fn truthy(ctx: Ctx, name: Seq<char>) -> bool {
    if !ctx.contains_key(name) {
        false
    } else {
        let v = ctx[name];
        match v.ty {
            VariableTy::Boolean => v.data == Some("true"@) || v.data == Some("1"@) || v.data
                == Some("yes"@),
            _ => v.data is Some && v.data->Some_0.len() > 0,
        }
    }
}

/// The message for a node that cannot stand in a condition.
pub open spec fn invalid_condition() -> Seq<char> {
    "Invalid condition node: only variables, !, && and || may form a condition"@
}

/// Evaluates a condition, with short-circuit `&&` and `||`.
pub open spec fn eval_spec(n: Node, ctx: Ctx) -> Result<bool, ErrorModel>
    decreases n,
{
    match n {
        Node::Variable(name) => Ok(truthy(ctx, name)),
        Node::Not(c) => match eval_spec(*c, ctx) {
            Ok(b) => Ok(!b),
            Err(e) => Err(e),
        },
        Node::And(l, r) => match eval_spec(*l, ctx) {
            Ok(true) => eval_spec(*r, ctx),
            Ok(false) => Ok(false),
            Err(e) => Err(e),
        },
        Node::Or(l, r) => match eval_spec(*l, ctx) {
            Ok(true) => Ok(true),
            Ok(false) => eval_spec(*r, ctx),
            Err(e) => Err(e),
        },
        Node::TemplateInclude(_) => Err(
            ErrorModel::RenderError("Template includes cannot be used in conditions"@),
        ),
        _ => Err(ErrorModel::RenderError(invalid_condition())),
    }
}

/// The pieces of `d` between commas, where the current piece began at `start`
/// and the scan stands at `i`.
pub open spec fn pieces(d: Seq<char>, start: int, i: int) -> Seq<Seq<char>>
    decreases d.len() - i,
{
    if i >= d.len() {
        seq![d.subrange(start, d.len() as int)]
    } else if d[i] == ',' {
        seq![d.subrange(start, i)] + pieces(d, i + 1, i + 1)
    } else {
        pieces(d, start, i + 1)
    }
}

/// `d` split at each comma.
pub open spec fn split_commas(d: Seq<char>) -> Seq<Seq<char>> {
    pieces(d, 0, 0)
}

/// Characters with the Unicode `White_Space` property.
pub open spec fn is_white_space(c: char) -> bool {
    ('\u{9}' <= c && c <= '\u{d}') || c == ' ' || c == '\u{85}' || c == '\u{a0}' || c == '\u{1680}'
        || ('\u{2000}' <= c && c <= '\u{200a}') || c == '\u{2028}' || c == '\u{2029}' || c
        == '\u{202f}' || c == '\u{205f}' || c == '\u{3000}'
}

/// How many `White_Space` characters `t` starts with.
pub open spec fn leading_white(t: Seq<char>) -> nat
    decreases t.len(),
{
    if t.len() > 0 && is_white_space(t[0]) {
        1 + leading_white(t.subrange(1, t.len() as int))
    } else {
        0
    }
}

/// How many `White_Space` characters `t` ends with.
pub open spec fn trailing_white(t: Seq<char>) -> nat
    decreases t.len(),
{
    if t.len() > 0 && is_white_space(t[t.len() - 1]) {
        1 + trailing_white(t.subrange(0, t.len() - 1))
    } else {
        0
    }
}

/// `t` without its leading and trailing `White_Space` characters.
pub open spec fn trimmed(t: Seq<char>) -> Seq<char> {
    if leading_white(t) >= t.len() {
        Seq::empty()
    } else {
        t.subrange(leading_white(t) as int, t.len() - trailing_white(t))
    }
}

/// Relies on `str::trim`: leading and trailing characters with the Unicode
/// `White_Space` property removed.
#[verifier::external_body]
fn trim_text(t: &str) -> (r: String)
    ensures
        r@ == trimmed(t@),
{
    t.trim().to_string()
}

/// `t` in front of a successful result.
pub open spec fn prepend(t: Seq<char>, r: Rendered) -> Rendered {
    match r {
        Ok(u) => Ok(t + u),
        Err(e) => Err(e),
    }
}

proof fn lemma_prepend_empty(r: Rendered)
    ensures
        prepend(Seq::empty(), r) == r,
{
    if r is Ok {
        assert(Seq::<char>::empty() + r->Ok_0 =~= r->Ok_0);
    }
}

proof fn lemma_prepend_prepend(a: Seq<char>, t: Seq<char>, r: Rendered)
    ensures
        prepend(a, prepend(t, r)) == prepend(a + t, r),
{
    if r is Ok {
        assert(a + (t + r->Ok_0) =~= (a + t) + r->Ok_0);
    }
}

/// A template being rendered: its name and the context it is rendered against.
pub type Frame = (Seq<char>, Ctx);

/// How many more inclusions may nest. No machine holds `usize::MAX` nested
/// renders, so this bound never decides an outcome; it makes the recursion of
/// the definitions well-founded.
pub open spec fn budget(active: Seq<Frame>) -> int {
    usize::MAX - active.len()
}

/// The message for an inclusion of a template that is already being rendered
/// against the same context.
pub open spec fn cycle_message(k: Seq<char>) -> Seq<char> {
    "Template inclusion cycle at: "@ + k
}

/// Renders a node against `ctx`, with `reg` resolving inclusions (if any) and
/// `active` the templates being rendered with their contexts, outermost first.
/// An inclusion renders the included template against the current context.
/// Rendering is deterministic, so including a template that is already being
/// rendered against the same context could never end: that inclusion fails
/// with a `RenderError` instead. A template re-entered under another context
/// (a loop having bound a variable) is rendered.
pub open spec fn render_spec(reg: Option<Registry>, active: Seq<Frame>, n: Node, ctx: Ctx) -> Rendered
    decreases budget(active), n, 0int,
{
    match n {
        Node::Root(children) => render_seq(reg, active, children, ctx),
        Node::Constant(t) => Ok(t),
        Node::Variable(name) => if !ctx.contains_key(name) {
            Err(ErrorModel::MissingVariable(name))
        } else if ctx[name].data is None || ctx[name].data->Some_0.len() == 0 {
            Err(ErrorModel::MissingVariableData(name))
        } else {
            Ok(ctx[name].data->Some_0)
        },
        Node::For { iterable, variable, body } => if !ctx.contains_key(iterable) {
            Err(ErrorModel::MissingVariable(iterable))
        } else if ctx[iterable].ty != VariableTy::Iterable {
            Err(ErrorModel::TypeMismatch(iterable, VariableTy::Iterable, ctx[iterable].ty))
        } else if ctx[iterable].data is None {
            Err(ErrorModel::MissingVariableData(iterable))
        } else if ctx[iterable].data->Some_0.len() == 0 {
            Ok(Seq::empty())
        } else {
            render_items(reg, active, variable, body, split_commas(ctx[iterable].data->Some_0), ctx)
        },
        Node::If { condition, body, else_branch } => match eval_spec(*condition, ctx) {
            Err(e) => Err(e),
            Ok(true) => render_seq(reg, active, body, ctx),
            Ok(false) => match else_branch {
                Some(e) => render_spec(reg, active, *e, ctx),
                None => Ok(Seq::empty()),
            },
        },
        Node::TemplateInclude(k) => match reg {
            None => Err(ErrorModel::RenderError("Cannot include template: no engine provided"@)),
            Some(r) => match find_template(r, k) {
                None => Err(ErrorModel::MissingTemplate(k)),
                Some(t) => if active.contains((k, ctx)) || active.len() >= usize::MAX {
                    Err(ErrorModel::RenderError(cycle_message(k)))
                } else {
                    render_spec(reg, active.push((k, ctx)), t, ctx)
                },
            },
        },
        _ => Err(
            ErrorModel::RenderError(
                "Conditional operator node found outside of condition context"@,
            ),
        ),
    }
}

/// Renders nodes in order, concatenating their output.
pub open spec fn render_seq(reg: Option<Registry>, active: Seq<Frame>, ns: Seq<Node>, ctx: Ctx) -> Rendered
    decreases budget(active), ns, 0int,
{
    if ns.len() == 0 {
        Ok(Seq::empty())
    } else {
        match render_spec(reg, active, ns[0], ctx) {
            Err(e) => Err(e),
            Ok(t) => prepend(t, render_seq(reg, active, ns.subrange(1, ns.len() as int), ctx)),
        }
    }
}

/// Renders a loop body once per item, with `variable` bound to the trimmed item
/// as a `String`.
pub open spec fn render_items(
    reg: Option<Registry>,
    active: Seq<Frame>,
    variable: Seq<char>,
    body: Seq<Node>,
    items: Seq<Seq<char>>,
    ctx: Ctx,
) -> Rendered
    decreases budget(active), body, items.len() + 1,
{
    if items.len() == 0 {
        Ok(Seq::empty())
    } else {
        let inner = ctx.insert(
            variable,
            VarModel { ty: VariableTy::String, data: Some(trimmed(items[0])) },
        );
        match render_seq(reg, active, body, inner) {
            Err(e) => Err(e),
            Ok(t) => prepend(
                t,
                render_items(reg, active, variable, body, items.subrange(1, items.len() as int), ctx),
            ),
        }
    }
}

/// A parsed template: its source text, its tree and, once registered, its name.
pub struct Template {
    content: String,
    pub(crate) ast: AstNode,
    pub(crate) name: Option<String>,
}

/// The views of the templates being rendered and their contexts.
pub open spec fn frames_view(v: Seq<(String, Context)>) -> Seq<Frame> {
    v.map_values(|f: (String, Context)| (f.0@, f.1@))
}

/// Whether `name` is being rendered against a context equal to `context`.
fn is_running(active: &Vec<(String, Context)>, name: &String, context: &Context) -> (r: bool)
    ensures
        r == frames_view(active@).contains((name@, context@)),
{
    let mut i: usize = 0;
    while i < active.len()
        invariant
            i <= active@.len(),
            forall|j: int| 0 <= j < i ==> #[trigger] frames_view(active@)[j] != (name@, context@),
        decreases active@.len() - i,
    {
        if same_text(&active[i].0, name) && active[i].1.same_as(context) {
            assert(frames_view(active@)[i as int] == (name@, context@));
            return true;
        }
        assert(frames_view(active@)[i as int] != (name@, context@));
        i = i + 1;
    }
    false
}

/// The views of the names of the templates being rendered.
pub open spec fn names_view(v: Seq<String>) -> Seq<Seq<char>> {
    v.map_values(|s: String| s@)
}

/// The registry of an optional engine.
pub open spec fn registry_of(engine: Option<&MinilateEngine>) -> Option<Registry> {
    match engine {
        Some(e) => Some(e.registry()),
        None => None,
    }
}

/// The model of a rendering result.
pub open spec fn outcome(r: Result<String, MinilateError>) -> Rendered {
    match r {
        Ok(t) => Ok(t@),
        Err(e) => Err(e@),
    }
}

/// An exec rendering result agrees with a model result, where the output is
/// appended to `before`.
pub open spec fn renders_as(r: Result<(), MinilateError>, before: Seq<char>, after: Seq<char>, m: Rendered) -> bool {
    match m {
        Ok(t) => r is Ok && after == before + t,
        Err(e) => r is Err && r->Err_0@ == e,
    }
}

impl Template {
    /// The template's tree, as a model.
    pub closed spec fn tree(&self) -> Node {
        self.ast.model()
    }

    /// The template's source text.
    pub closed spec fn source(&self) -> Seq<char> {
        self.content@
    }

    /// The template's name, if it has one.
    pub closed spec fn label(&self) -> Option<Seq<char>> {
        match self.name {
            Some(n) => Some(n@),
            None => None,
        }
    }

    /// Parses `content`; on success the template keeps the text, has the tree
    /// the grammar gives and no name yet.
    pub fn new(content: &str) -> (r: Result<Template, MinilateError>)
        ensures
            match r {
                Ok(t) => template_spec(content@) == Ok::<Node, crate::parser::Failure>(t.tree())
                    && t.source() == content@ && t.label() is None,
                Err(e) => template_spec(content@) is Err && e@ == ErrorModel::Parse(
                    crate::text::as_count(
                        crate::parser::location(content@, template_spec(content@)->Err_0.pos).0,
                    ),
                    crate::text::as_count(
                        crate::parser::location(content@, template_spec(content@)->Err_0.pos).1,
                    ),
                    template_spec(content@)->Err_0.kind,
                ),
            },
    {
        match tokenize(content) {
            Ok(ast) => Ok(Template { content: owned(content), ast, name: None }),
            Err(e) => Err(MinilateError::Parse(e)),
        }
    }

    /// The template's source text.
    pub fn content(&self) -> (r: &str)
        ensures
            r@ == self.source(),
    {
        self.content.as_str()
    }

    /// The template's tree.
    pub(crate) fn ast(&self) -> (r: &AstNode)
        ensures
            r.model() == self.tree(),
    {
        &self.ast
    }

    /// Gives the template its registered name.
    pub(crate) fn set_name(&mut self, name: &str)
        ensures
            final(self).tree() == old(self).tree(),
            final(self).source() == old(self).source(),
            final(self).label() == Some(name@),
    {
        self.name = Some(owned(name));
    }

    /// The frames the rendering of this template starts with: its own name, if
    /// any, with the context.
    pub open spec fn first_active(&self, ctx: Ctx) -> Seq<Frame> {
        match self.label() {
            Some(n) => seq![(n, ctx)],
            None => Seq::empty(),
        }
    }

    /// Renders the template as the one named `name`, so that an inclusion of
    /// `name` inside it under the same context counts as a cycle.
    pub(crate) fn render_as(&self, name: &String, context: &Context, engine: Option<&MinilateEngine>) -> (r: Result<String, MinilateError>)
        ensures
            match render_spec(registry_of(engine), seq![(name@, context@)], self.tree(), context@) {
                Ok(t) => r is Ok && r->Ok_0@ == t,
                Err(e) => r is Err && r->Err_0@ == e,
            },
    {
        let mut active: Vec<(String, Context)> = Vec::new();
        active.push((name.clone(), context.duplicate()));
        proof {
            assert(frames_view(active@) =~= seq![(name@, context@)]);
        }
        let mut output = String::new();
        match render_node(&self.ast, context, &mut output, engine, &mut active) {
            Ok(()) => {
                assert(output@ =~= Seq::<char>::empty() + output@);
                Ok(output)
            },
            Err(e) => Err(e),
        }
    }

    /// Renders the template against `context`; `engine` resolves inclusions.
    pub fn render(&self, context: &Context, engine: Option<&MinilateEngine>) -> (r: Result<String, MinilateError>)
        ensures
            match render_spec(registry_of(engine), self.first_active(context@), self.tree(), context@) {
                Ok(t) => r is Ok && r->Ok_0@ == t,
                Err(e) => r is Err && r->Err_0@ == e,
            },
    {
        let mut active: Vec<(String, Context)> = Vec::new();
        match &self.name {
            Some(n) => active.push((n.clone(), context.duplicate())),
            None => {},
        }
        proof {
            assert(frames_view(active@) =~= self.first_active(context@));
        }
        let mut output = String::new();
        match render_node(&self.ast, context, &mut output, engine, &mut active) {
            Ok(()) => {
                assert(output@ =~= Seq::<char>::empty() + output@);
                Ok(output)
            },
            Err(e) => Err(e),
        }
    }
}

/// Whether `name` is among the names in `active`.
pub(crate) fn is_active(active: &Vec<String>, name: &String) -> (r: bool)
    ensures
        r == names_view(active@).contains(name@),
{
    let mut i: usize = 0;
    while i < active.len()
        invariant
            i <= active@.len(),
            forall|j: int| 0 <= j < i ==> active@[j]@ != name@,
        decreases active@.len() - i,
    {
        if same_text(&active[i], name) {
            assert(names_view(active@)[i as int] == name@);
            return true;
        }
        i = i + 1;
    }
    assert(!names_view(active@).contains(name@)) by {
        if names_view(active@).contains(name@) {
            let j = choose|j: int| 0 <= j < names_view(active@).len() && names_view(active@)[j] == name@;
            assert(active@[j]@ == name@);
        }
    }
    false
}

/// Evaluates a condition node against `context`.
pub fn evaluate_condition(condition: &AstNode, context: &Context) -> (r: Result<bool, MinilateError>)
    ensures
        match eval_spec(condition.model(), context@) {
            Ok(b) => r == Ok::<bool, MinilateError>(b),
            Err(e) => r is Err && r->Err_0@ == e,
        },
    decreases condition,
{
    match condition {
        AstNode::Variable { name } => {
            match context.get_by(name) {
                None => Ok(false),
                Some(var) => match var.data_string() {
                    None => Ok(false),
                    Some(data) => match var.ty() {
                        VariableTy::Boolean => {
                            let t = owned("true");
                            let one = owned("1");
                            let yes = owned("yes");
                            Ok(same_text(data, &t) || same_text(data, &one) || same_text(data, &yes))
                        },
                        VariableTy::String => Ok(!is_blank(data)),
                        VariableTy::Iterable => Ok(!is_blank(data)),
                    },
                },
            }
        },
        AstNode::Not { condition } => match evaluate_condition(condition, context) {
            Ok(b) => Ok(!b),
            Err(e) => Err(e),
        },
        AstNode::And { left, right } => match evaluate_condition(left, context) {
            Ok(true) => evaluate_condition(right, context),
            Ok(false) => Ok(false),
            Err(e) => Err(e),
        },
        AstNode::Or { left, right } => match evaluate_condition(left, context) {
            Ok(true) => Ok(true),
            Ok(false) => evaluate_condition(right, context),
            Err(e) => Err(e),
        },
        AstNode::TemplateInclude { .. } => Err(
            MinilateError::RenderError {
                message: owned("Template includes cannot be used in conditions"),
            },
        ),
        _ => Err(
            MinilateError::RenderError {
                message: owned(
                    "Invalid condition node: only variables, !, && and || may form a condition",
                ),
            },
        ),
    }
}

/// Rendering `n` fails at its own checks, before it writes anything: a
/// substitution without data, a loop whose iterable is missing, mistyped or
/// without data, a conditional whose condition is invalid, a boolean
/// connective, or an inclusion that cannot be resolved or closes a cycle.
pub open spec fn fails_before_output(reg: Option<Registry>, active: Seq<Frame>, n: Node, ctx: Ctx) -> bool {
    match n {
        Node::Variable(name) => !supplied(ctx, name),
        Node::For { iterable, .. } => !ctx.contains_key(iterable) || ctx[iterable].ty
            != VariableTy::Iterable || ctx[iterable].data is None,
        Node::If { condition, .. } => eval_spec(*condition, ctx) is Err,
        Node::Not(_) => true,
        Node::And(_, _) => true,
        Node::Or(_, _) => true,
        Node::TemplateInclude(k) => match reg {
            None => true,
            Some(r) => find_template(r, k) is None || active.contains((k, ctx)) || active.len()
                >= usize::MAX,
        },
        _ => false,
    }
}

/// Renders `node` against `context`, appending the output to `output`;
/// `active` holds the names of the templates being rendered, outermost first.
/// When the node fails its own checks, `output` is left as it was.
#[verifier::rlimit(40)]
fn render_node(
    node: &AstNode,
    context: &Context,
    output: &mut String,
    engine: Option<&MinilateEngine>,
    active: &mut Vec<(String, Context)>,
) -> (r: Result<(), MinilateError>)
    ensures
        renders_as(
            r,
            old(output)@,
            final(output)@,
            render_spec(registry_of(engine), frames_view(old(active)@), node.model(), context@),
        ),
        fails_before_output(registry_of(engine), frames_view(old(active)@), node.model(), context@)
            ==> final(output)@ == old(output)@,
        final(active)@ == old(active)@,
    decreases budget(frames_view(old(active)@)), node, 0int,
{
    match node {
        AstNode::Root(children) => render_nodes(children, context, output, engine, active),
        AstNode::Constant { data } => {
            output.append(data.as_str());
            Ok(())
        },
        AstNode::Variable { name } => match context.get_by(name) {
            None => Err(MinilateError::MissingVariable { variable_name: name.clone() }),
            Some(var) => match var.data_string() {
                None => Err(MinilateError::MissingVariableData { variable_name: name.clone() }),
                Some(data) => if is_blank(data) {
                    Err(MinilateError::MissingVariableData { variable_name: name.clone() })
                } else {
                    output.append(data.as_str());
                    Ok(())
                },
            },
        },
        AstNode::For { iterable, variable, body } => {
            let var = match context.get_by(iterable) {
                None => return Err(MinilateError::MissingVariable { variable_name: iterable.clone() }),
                Some(v) => v,
            };
            let ty = var.ty();
            if ty != VariableTy::Iterable {
                return Err(
                    MinilateError::TypeMismatch {
                        variable_name: iterable.clone(),
                        expected: VariableTy::Iterable,
                        found: ty,
                    },
                );
            }
            let data = match var.data_string() {
                None => return Err(MinilateError::MissingVariableData { variable_name: iterable.clone() }),
                Some(d) => d,
            };
            if is_blank(data) {
                return Ok(());
            }
            proof {
                assert(decreases_to!(*node => node->For_body));
            }
            render_loop(data, variable, body, context, output, engine, active)
        },
        AstNode::If { condition, body, else_branch } => match evaluate_condition(condition, context) {
            Err(e) => Err(e),
            Ok(true) => render_nodes(body, context, output, engine, active),
            Ok(false) => match else_branch {
                Some(e) => render_node(e, context, output, engine, active),
                None => Ok(()),
            },
        },
        AstNode::TemplateInclude { template_name } => match engine {
            None => Err(
                MinilateError::RenderError {
                    message: owned("Cannot include template: no engine provided"),
                },
            ),
            Some(e) => match e.lookup(template_name) {
                None => Err(MinilateError::MissingTemplate { template_name: template_name.clone() }),
                Some(t) => if is_running(active, template_name, context) || active.len() >= usize::MAX {
                    let mut message = owned("Template inclusion cycle at: ");
                    message.append(template_name.as_str());
                    Err(MinilateError::RenderError { message })
                } else {
                    active.push((template_name.clone(), context.duplicate()));
                    proof {
                        assert(frames_view(active@) =~= frames_view(old(active)@).push((template_name@, context@)));
                    }
                    let r = render_node(&t.ast, context, output, engine, active);
                    active.pop();
                    proof {
                        assert(active@ =~= old(active)@);
                    }
                    r
                },
            },
        },
        _ => Err(
            MinilateError::RenderError {
                message: owned("Conditional operator node found outside of condition context"),
            },
        ),
    }
}

/// Renders `nodes` in order, appending to `output`.
#[verifier::rlimit(40)]
fn render_nodes(
    nodes: &Vec<AstNode>,
    context: &Context,
    output: &mut String,
    engine: Option<&MinilateEngine>,
    active: &mut Vec<(String, Context)>,
) -> (r: Result<(), MinilateError>)
    ensures
        renders_as(
            r,
            old(output)@,
            final(output)@,
            render_seq(registry_of(engine), frames_view(old(active)@), models(nodes@), context@),
        ),
        final(active)@ == old(active)@,
    decreases budget(frames_view(old(active)@)), nodes, 0int,
{
    let ghost reg = registry_of(engine);
    let ghost act = frames_view(active@);
    let ghost ms = models(nodes@);
    let ghost before = output@;
    proof {
        lemma_models(nodes@);
        assert(ms.subrange(0, ms.len() as int) =~= ms);
        assert(output@.subrange(before.len() as int, output@.len() as int) =~= Seq::<char>::empty());
        assert(output@.subrange(0, before.len() as int) =~= before);
        lemma_prepend_empty(render_seq(reg, act, ms, context@));
    }
    let mut i: usize = 0;
    while i < nodes.len()
        invariant
            i <= nodes@.len(),
            ms == models(nodes@),
            ms.len() == nodes@.len(),
            forall|j: int| 0 <= j < nodes@.len() ==> #[trigger] ms[j] == nodes@[j].model(),
            frames_view(active@) == act,
            active@ == old(active)@,
            reg == registry_of(engine),
            output@.len() >= before.len(),
            output@.subrange(0, before.len() as int) == before,
            render_seq(reg, act, ms, context@) == prepend(
                output@.subrange(before.len() as int, output@.len() as int),
                render_seq(reg, act, ms.subrange(i as int, ms.len() as int), context@),
            ),
        decreases nodes@.len() - i,
    {
        let ghost mid = output@;
        let ghost rest = ms.subrange(i as int, ms.len() as int);
        proof {
            assert(rest[0] == nodes@[i as int].model());
            assert(rest.subrange(1, rest.len() as int) =~= ms.subrange(i + 1, ms.len() as int));
            broadcast use vstd::std_specs::vec::axiom_vec_index_decreases;
            assert(decreases_to!(*nodes => nodes[i as int]));
        }
        let ghost m = render_spec(reg, act, rest[0], context@);
        let ghost later = render_seq(reg, act, rest.subrange(1, rest.len() as int), context@);
        assert(render_seq(reg, act, rest, context@) == match m {
            Err(e) => Err(e),
            Ok(t) => prepend(t, later),
        });
        match render_node(&nodes[i], context, output, engine, active) {
            Err(e) => {
                assert(render_seq(reg, act, rest, context@) == m);
                return Err(e);
            },
            Ok(()) => {},
        }
        proof {
            let t = output@.subrange(mid.len() as int, output@.len() as int);
            let done = mid.subrange(before.len() as int, mid.len() as int);
            assert(m is Ok);
            assert(t =~= m->Ok_0);
            assert(render_seq(reg, act, rest, context@) == prepend(t, later));
            lemma_prepend_prepend(done, t, render_seq(reg, act, ms.subrange(i + 1, ms.len() as int), context@));
            assert(output@ =~= mid + t);
            assert(output@.subrange(before.len() as int, output@.len() as int) =~= mid.subrange(
                before.len() as int,
                mid.len() as int,
            ) + t);
            assert(output@.subrange(0, before.len() as int) =~= before);
        }
        i = i + 1;
    }
    proof {
        assert(ms.subrange(i as int, ms.len() as int) =~= Seq::<Node>::empty());
        let all = output@.subrange(before.len() as int, output@.len() as int);
        assert(output@ =~= before + all);
        assert(all + Seq::<char>::empty() =~= all);
    }
    Ok(())
}

/// Renders a loop body once per comma-separated item of `data`.
#[verifier::rlimit(40)]
fn render_loop(
    data: &String,
    variable: &String,
    body: &Vec<AstNode>,
    context: &Context,
    output: &mut String,
    engine: Option<&MinilateEngine>,
    active: &mut Vec<(String, Context)>,
) -> (r: Result<(), MinilateError>)
    ensures
        renders_as(
            r,
            old(output)@,
            final(output)@,
            render_items(
                registry_of(engine),
                frames_view(old(active)@),
                variable@,
                models(body@),
                split_commas(data@),
                context@,
            ),
        ),
        final(active)@ == old(active)@,
    decreases budget(frames_view(old(active)@)), body, 2int,
{
    let ghost reg = registry_of(engine);
    let ghost act = frames_view(active@);
    let ghost bm = models(body@);
    let ghost before = output@;
    let ghost d = data@;
    let chars = chars_of(data.as_str());
    let mut start: usize = 0;
    let mut i: usize = 0;
    proof {
        assert(output@.subrange(before.len() as int, output@.len() as int) =~= Seq::<char>::empty());
        assert(output@.subrange(0, before.len() as int) =~= before);
        lemma_prepend_empty(render_items(reg, act, variable@, bm, split_commas(d), context@));
    }
    loop
        invariant
            start <= i <= chars@.len(),
            chars@ == d,
            d == data@,
            before == old(output)@,
            frames_view(active@) == act,
            active@ == old(active)@,
            reg == registry_of(engine),
            bm == models(body@),
            output@.len() >= before.len(),
            output@.subrange(0, before.len() as int) == before,
            render_items(reg, act, variable@, bm, split_commas(d), context@) == prepend(
                output@.subrange(before.len() as int, output@.len() as int),
                render_items(reg, act, variable@, bm, pieces(d, start as int, i as int), context@),
            ),
        decreases chars@.len() - i, (if i < chars@.len() { 1int } else { 0int }),
    {
        if i < chars.len() && chars[i] != ',' {
            i = i + 1;
        } else {
            let ghost mid = output@;
            let ghost ps = pieces(d, start as int, i as int);
            let piece = slice_string(&chars, start, i);
            proof {
                assert(ps[0] == piece@);
                if i < chars@.len() {
                    assert(ps.subrange(1, ps.len() as int) =~= pieces(d, i + 1, i + 1));
                } else {
                    assert(ps.subrange(1, ps.len() as int) =~= Seq::<Seq<char>>::empty());
                }
            }
            let item = trim_text(piece.as_str());
            let mut inner = context.duplicate();
            inner.insert(variable.as_str(), VariableTy::String.with_data(item.as_str()));
            let ghost rest_items = ps.subrange(1, ps.len() as int);
            let ghost later = render_items(reg, act, variable@, bm, rest_items, context@);
            assert(render_items(reg, act, variable@, bm, ps, context@) == match render_seq(
                reg,
                act,
                bm,
                inner@,
            ) {
                Err(e) => Err(e),
                Ok(t) => prepend(t, later),
            });
            let ghost m = render_seq(reg, act, bm, inner@);
            match render_nodes(body, &inner, output, engine, active) {
                Err(e) => {
                    assert(render_items(reg, act, variable@, bm, ps, context@) == m);
                    return Err(e);
                },
                Ok(()) => {},
            }
            proof {
                let t = output@.subrange(mid.len() as int, output@.len() as int);
                let done = mid.subrange(before.len() as int, mid.len() as int);
                assert(m is Ok);
                assert(t =~= m->Ok_0);
                lemma_prepend_prepend(done, t, later);
                assert(output@ =~= mid + t);
                assert(output@.subrange(before.len() as int, output@.len() as int) =~= mid.subrange(
                    before.len() as int,
                    mid.len() as int,
                ) + t);
                assert(output@.subrange(0, before.len() as int) =~= before);
            }
            if i >= chars.len() {
                proof {
                    let all = output@.subrange(before.len() as int, output@.len() as int);
                    assert(output@ =~= before + all);
                    assert(later == Ok::<Seq<char>, ErrorModel>(Seq::empty()));
                    assert(all + Seq::<char>::empty() =~= all);
                }
                return Ok(());
            }
            i = i + 1;
            start = i;
        }
    }
}

/// A requirement: a variable name and the type its use needs.
pub type Need = (Seq<char>, VariableTy);

/// The views of requirements held as strings.
pub open spec fn needs_view(v: Seq<(String, VariableTy)>) -> Seq<Need> {
    v.map_values(|p: (String, VariableTy)| (p.0@, p.1))
}

/// The stand-in value a loop variable gets while a template is analysed.
pub open spec fn placeholder() -> VarModel {
    VarModel { ty: VariableTy::String, data: Some("dummy"@) }
}

/// `ctx` binds `name` to non-empty data.
pub open spec fn supplied(ctx: Ctx, name: Seq<char>) -> bool {
    ctx.contains_key(name) && ctx[name].data is Some && ctx[name].data->Some_0.len() > 0
}

/// No requirement when `met`, else `[(name, ty)]`.
pub open spec fn unless(met: bool, name: Seq<char>, ty: VariableTy) -> Seq<Need> {
    if met {
        Seq::empty()
    } else {
        seq![(name, ty)]
    }
}

/// The variables a condition reads that `ctx` lacks, each needed as a
/// `Boolean`, in order (a condition reads a missing variable as false, so a
/// bound one is supplied whatever its data).
pub open spec fn cond_needs(n: Node, ctx: Ctx) -> Seq<Need>
    decreases n,
{
    match n {
        Node::Variable(name) => unless(ctx.contains_key(name), name, VariableTy::Boolean),
        Node::Not(c) => cond_needs(*c, ctx),
        Node::And(l, r) => cond_needs(*l, ctx) + cond_needs(*r, ctx),
        Node::Or(l, r) => cond_needs(*l, ctx) + cond_needs(*r, ctx),
        _ => Seq::empty(),
    }
}

/// The value of a condition is known from `ctx`: every name it reads is bound,
/// and none is the variable of an enclosing loop (in `loops`), whose value
/// changes from one item to the next.
pub open spec fn cond_known(n: Node, ctx: Ctx, loops: Seq<Seq<char>>) -> bool
    decreases n,
{
    match n {
        Node::Variable(name) => ctx.contains_key(name) && !loops.contains(name),
        Node::Not(c) => cond_known(*c, ctx, loops),
        Node::And(l, r) => cond_known(*l, ctx, loops) && cond_known(*r, ctx, loops),
        Node::Or(l, r) => cond_known(*l, ctx, loops) && cond_known(*r, ctx, loops),
        _ => true,
    }
}

/// The variables a node uses directly (not through inclusions), in order, with
/// the type their use needs, leaving out those `ctx` supplies:
/// - a substitution needs non-empty data;
/// - a loop needs its iterable bound with data; its body is walked (with the
///   loop variable bound to a stand-in and added to `loops`) unless that data
///   is empty;
/// - a conditional whose value `ctx` decides (see `cond_known`) contributes the
///   branch the renderer takes; otherwise its condition and both branches count.
pub open spec fn direct_needs(n: Node, ctx: Ctx, loops: Seq<Seq<char>>) -> Seq<Need>
    decreases n, 0int,
{
    match n {
        Node::Root(children) => direct_seq(children, ctx, loops),
        Node::Constant(_) => Seq::empty(),
        Node::Variable(name) => unless(supplied(ctx, name), name, VariableTy::String),
        Node::For { iterable, variable, body } => unless(
            ctx.contains_key(iterable) && ctx[iterable].data is Some,
            iterable,
            VariableTy::Iterable,
        ) + if ctx.contains_key(iterable) && ctx[iterable].data == Some(Seq::<char>::empty()) {
            Seq::empty()
        } else {
            direct_seq(body, ctx.insert(variable, placeholder()), loops.push(variable))
        },
        Node::If { condition, body, else_branch } => {
            let other = match else_branch {
                Some(e) => direct_needs(*e, ctx, loops),
                None => Seq::empty(),
            };
            if cond_known(*condition, ctx, loops) {
                match eval_spec(*condition, ctx) {
                    Ok(true) => direct_seq(body, ctx, loops),
                    Ok(false) => other,
                    Err(_) => Seq::empty(),
                }
            } else {
                cond_needs(*condition, ctx) + direct_seq(body, ctx, loops) + other
            }
        },
        Node::TemplateInclude(_) => Seq::empty(),
        _ => cond_needs(n, ctx),
    }
}

/// `direct_needs` of each node, concatenated.
pub open spec fn direct_seq(ns: Seq<Node>, ctx: Ctx, loops: Seq<Seq<char>>) -> Seq<Need>
    decreases ns, 0int,
{
    if ns.len() == 0 {
        Seq::empty()
    } else {
        direct_needs(ns[0], ctx, loops) + direct_seq(ns.subrange(1, ns.len() as int), ctx, loops)
    }
}

/// Some requirement in `acc` names `k`.
pub open spec fn listed_need(acc: Seq<Need>, k: Seq<char>) -> bool {
    exists|i: int| 0 <= i < acc.len() && acc[i].0 == k
}

/// `acc` followed by each requirement of `more` whose name is not listed yet:
/// one entry per name, the first type found kept.
pub open spec fn merge(acc: Seq<Need>, more: Seq<Need>) -> Seq<Need>
    decreases more.len(),
{
    if more.len() == 0 {
        acc
    } else {
        merge(
            if listed_need(acc, more[0].0) {
                acc
            } else {
                acc.push(more[0])
            },
            more.subrange(1, more.len() as int),
        )
    }
}

pub proof fn lemma_merge_concat(acc: Seq<Need>, a: Seq<Need>, b: Seq<Need>)
    ensures
        merge(acc, a + b) == merge(merge(acc, a), b),
    decreases a.len(),
{
    if a.len() == 0 {
        assert(a + b =~= b);
    } else {
        let next = if listed_need(acc, a[0].0) {
            acc
        } else {
            acc.push(a[0])
        };
        assert((a + b)[0] == a[0]);
        assert((a + b).subrange(1, (a + b).len() as int) =~= a.subrange(1, a.len() as int) + b);
        lemma_merge_concat(next, a.subrange(1, a.len() as int), b);
    }
}

/// Merging keeps names distinct.
pub proof fn lemma_merge_distinct(acc: Seq<Need>, more: Seq<Need>)
    requires
        forall|i: int, j: int| 0 <= i < j < acc.len() ==> acc[i].0 != acc[j].0,
    ensures
        forall|i: int, j: int|
            0 <= i < j < merge(acc, more).len() ==> merge(acc, more)[i].0 != merge(acc, more)[j].0,
    decreases more.len(),
{
    if more.len() > 0 {
        if !listed_need(acc, more[0].0) {
            let p = acc.push(more[0]);
            assert forall|i: int, j: int| 0 <= i < j < p.len() implies p[i].0 != p[j].0 by {
                assert(p[i] == acc[i]);
                if j == acc.len() {
                    assert(p[j] == more[0]);
                    if acc[i].0 == more[0].0 {
                        assert(listed_need(acc, more[0].0));
                    }
                } else {
                    assert(p[j] == acc[j]);
                }
            }
            lemma_merge_distinct(p, more.subrange(1, more.len() as int));
            assert(merge(acc, more) == merge(p, more.subrange(1, more.len() as int)));
        } else {
            lemma_merge_distinct(acc, more.subrange(1, more.len() as int));
            assert(merge(acc, more) == merge(acc, more.subrange(1, more.len() as int)));
        }
    } else {
        assert(merge(acc, more) == acc);
    }
}

/// The stand-in binding of a loop variable.
pub(crate) fn placeholder_variable() -> (r: Variable)
    ensures
        r@ == placeholder(),
{
    VariableTy::String.with_data("dummy")
}

/// Whether some entry of `found` is named `name`.
fn need_listed(found: &Vec<(String, VariableTy)>, name: &String) -> (r: bool)
    ensures
        r == listed_need(needs_view(found@), name@),
{
    let mut i: usize = 0;
    while i < found.len()
        invariant
            i <= found@.len(),
            forall|j: int| 0 <= j < i ==> found@[j].0@ != name@,
        decreases found@.len() - i,
    {
        if same_text(&found[i].0, name) {
            assert(needs_view(found@)[i as int].0 == name@);
            return true;
        }
        i = i + 1;
    }
    assert(!listed_need(needs_view(found@), name@)) by {
        if listed_need(needs_view(found@), name@) {
            let j = choose|j: int| 0 <= j < needs_view(found@).len() && needs_view(found@)[j].0 == name@;
            assert(found@[j].0@ == name@);
        }
    }
    false
}

/// Records `(name, ty)` in `found` unless `met` or the name is listed already.
fn add_need(name: &String, ty: VariableTy, met: bool, found: &mut Vec<(String, VariableTy)>)
    ensures
        needs_view(final(found)@) == merge(needs_view(old(found)@), unless(met, name@, ty)),
{
    let ghost old_view = needs_view(found@);
    if !met && !need_listed(found, name) {
        found.push((name.clone(), ty));
        assert(needs_view(found@) =~= old_view.push((name@, ty)));
    }
    proof {
        let u = unless(met, name@, ty);
        if !met {
            assert(u[0] == (name@, ty));
            assert(u.subrange(1, u.len() as int) =~= Seq::<Need>::empty());
            let next = if listed_need(old_view, name@) {
                old_view
            } else {
                old_view.push((name@, ty))
            };
            assert(merge(old_view, u) == merge(next, Seq::<Need>::empty()));
        } else {
            assert(merge(old_view, u) == old_view);
        }
    }
}

/// Whether `name` is bound in `context` to non-empty data.
fn is_supplied(context: &Context, name: &String) -> (r: bool)
    ensures
        r == supplied(context@, name@),
{
    match context.get_by(name) {
        None => false,
        Some(v) => match v.data_string() {
            None => false,
            Some(d) => !is_blank(d),
        },
    }
}

/// Whether the value of a condition is known from `context` (see `cond_known`).
fn condition_known(node: &AstNode, context: &Context, loops: &Vec<String>) -> (r: bool)
    ensures
        r == cond_known(node.model(), context@, names_view(loops@)),
    decreases node,
{
    match node {
        AstNode::Variable { name } => context.get_by(name).is_some() && !is_active(loops, name),
        AstNode::Not { condition } => condition_known(condition, context, loops),
        AstNode::And { left, right } => condition_known(left, context, loops) && condition_known(
            right,
            context,
            loops,
        ),
        AstNode::Or { left, right } => condition_known(left, context, loops) && condition_known(
            right,
            context,
            loops,
        ),
        _ => true,
    }
}

/// Records the variables a condition reads that `context` lacks.
fn collect_condition(node: &AstNode, context: &Context, found: &mut Vec<(String, VariableTy)>)
    ensures
        needs_view(final(found)@) == merge(needs_view(old(found)@), cond_needs(node.model(), context@)),
    decreases node,
{
    match node {
        AstNode::Variable { name } => {
            let bound = context.get_by(name).is_some();
            add_need(name, VariableTy::Boolean, bound, found);
        },
        AstNode::Not { condition } => collect_condition(condition, context, found),
        AstNode::And { left, right } => {
            collect_condition(left, context, found);
            collect_condition(right, context, found);
            proof {
                lemma_merge_concat(needs_view(old(found)@), cond_needs(left.model(), context@), cond_needs(right.model(), context@));
            }
        },
        AstNode::Or { left, right } => {
            collect_condition(left, context, found);
            collect_condition(right, context, found);
            proof {
                lemma_merge_concat(needs_view(old(found)@), cond_needs(left.model(), context@), cond_needs(right.model(), context@));
            }
        },
        _ => {},
    }
}

/// Records the variables `node` uses directly (see `direct_needs`).
#[verifier::rlimit(40)]
fn collect_variables_from_node(
    node: &AstNode,
    context: &Context,
    loops: &mut Vec<String>,
    found: &mut Vec<(String, VariableTy)>,
)
    ensures
        needs_view(final(found)@) == merge(
            needs_view(old(found)@),
            direct_needs(node.model(), context@, names_view(old(loops)@)),
        ),
        final(loops)@ == old(loops)@,
    decreases node, 0int,
{
    let ghost start = needs_view(found@);
    let ghost bound = names_view(loops@);
    match node {
        AstNode::Root(children) => collect_from_nodes(children, context, loops, found),
        AstNode::Constant { .. } => {},
        AstNode::Variable { name } => {
            let met = is_supplied(context, name);
            add_need(name, VariableTy::String, met, found);
        },
        AstNode::For { iterable, variable, body } => {
            let (has_data, blank) = match context.get_by(iterable) {
                None => (false, false),
                Some(v) => match v.data_string() {
                    None => (false, false),
                    Some(d) => (true, is_blank(d)),
                },
            };
            proof {
                if context@.contains_key(iterable@) && context@[iterable@].data is Some {
                    let d = context@[iterable@].data->Some_0;
                    assert(blank == (d.len() == 0));
                    assert(blank == (context@[iterable@].data == Some(Seq::<char>::empty()))) by {
                        if blank {
                            assert(d =~= Seq::<char>::empty());
                        }
                    }
                }
            }
            add_need(iterable, VariableTy::Iterable, has_data, found);
            let ghost mid = needs_view(found@);
            if !blank {
                let mut inner = context.duplicate();
                inner.insert(variable.as_str(), placeholder_variable());
                proof {
                    assert(decreases_to!(*node => node->For_body));
                }
                loops.push(variable.clone());
                proof {
                    assert(names_view(loops@) =~= bound.push(variable@));
                }
                collect_from_nodes(body, &inner, loops, found);
                loops.pop();
                proof {
                    assert(loops@ =~= old(loops)@);
                }
            } else {
                assert(merge(mid, Seq::<Need>::empty()) == mid);
            }
            proof {
                let first = unless(has_data, iterable@, VariableTy::Iterable);
                let rest = if blank {
                    Seq::<Need>::empty()
                } else {
                    direct_seq(models(body@), context@.insert(variable@, placeholder()), bound.push(variable@))
                };
                lemma_merge_concat(start, first, rest);
            }
        },
        AstNode::If { condition, body, else_branch } => {
            if condition_known(condition, context, loops) {
                match evaluate_condition(condition, context) {
                    Ok(true) => collect_from_nodes(body, context, loops, found),
                    Ok(false) => match else_branch {
                        Some(e) => collect_variables_from_node(e, context, loops, found),
                        None => {},
                    },
                    Err(_) => {},
                }
            } else {
                collect_condition(condition, context, found);
                collect_from_nodes(body, context, loops, found);
                match else_branch {
                    Some(e) => collect_variables_from_node(e, context, loops, found),
                    None => {},
                }
                proof {
                    let a = cond_needs(condition.model(), context@);
                    let b = direct_seq(models(body@), context@, bound);
                    let c = match else_branch {
                        Some(e) => direct_needs(e.model(), context@, bound),
                        None => Seq::<Need>::empty(),
                    };
                    lemma_merge_concat(start, a, b);
                    lemma_merge_concat(start, a + b, c);
                }
            }
        },
        AstNode::TemplateInclude { .. } => {},
        _ => collect_condition(node, context, found),
    }
}

/// Records the variables each of `nodes` uses directly.
fn collect_from_nodes(
    nodes: &Vec<AstNode>,
    context: &Context,
    loops: &mut Vec<String>,
    found: &mut Vec<(String, VariableTy)>,
)
    ensures
        needs_view(final(found)@) == merge(
            needs_view(old(found)@),
            direct_seq(models(nodes@), context@, names_view(old(loops)@)),
        ),
        final(loops)@ == old(loops)@,
    decreases nodes, 0int,
{
    let ghost ms = models(nodes@);
    let ghost bound = names_view(loops@);
    proof {
        lemma_models(nodes@);
        assert(ms.subrange(0, ms.len() as int) =~= ms);
    }
    let mut i: usize = 0;
    while i < nodes.len()
        invariant
            i <= nodes@.len(),
            ms == models(nodes@),
            ms.len() == nodes@.len(),
            forall|j: int| 0 <= j < nodes@.len() ==> #[trigger] ms[j] == nodes@[j].model(),
            loops@ == old(loops)@,
            bound == names_view(loops@),
            merge(needs_view(old(found)@), direct_seq(ms, context@, bound)) == merge(
                needs_view(found@),
                direct_seq(ms.subrange(i as int, ms.len() as int), context@, bound),
            ),
        decreases nodes@.len() - i,
    {
        let ghost rest = ms.subrange(i as int, ms.len() as int);
        let ghost mid = needs_view(found@);
        proof {
            assert(rest.subrange(1, rest.len() as int) =~= ms.subrange(i + 1, ms.len() as int));
            broadcast use vstd::std_specs::vec::axiom_vec_index_decreases;
            assert(decreases_to!(*nodes => nodes[i as int]));
            lemma_merge_concat(
                mid,
                direct_needs(rest[0], context@, bound),
                direct_seq(ms.subrange(i + 1, ms.len() as int), context@, bound),
            );
        }
        collect_variables_from_node(&nodes[i], context, loops, found);
        i = i + 1;
    }
    proof {
        assert(ms.subrange(i as int, ms.len() as int) =~= Seq::<Node>::empty());
    }
}

impl Template {
    /// Records in `variables` the variables this template uses directly and
    /// `context` does not supply (see `direct_needs`), with the type their use
    /// needs; a name already in `variables` is not added again, so names stay
    /// distinct and the first type found is kept.
    pub fn collect_variables(&self, variables: &mut Vec<(String, VariableTy)>, context: &Context)
        ensures
            needs_view(final(variables)@) == merge(
                needs_view(old(variables)@),
                direct_needs(self.tree(), context@, Seq::empty()),
            ),
            (forall|i: int, j: int|
                0 <= i < j < old(variables)@.len() ==> old(variables)@[i].0@ != old(variables)@[j].0@)
                ==> (forall|i: int, j: int|
                0 <= i < j < final(variables)@.len() ==> final(variables)@[i].0@ != final(variables)@[j].0@),
    {
        let mut loops: Vec<String> = Vec::new();
        proof {
            assert(names_view(loops@) =~= Seq::<Seq<char>>::empty());
        }
        collect_variables_from_node(&self.ast, context, &mut loops, variables);
        proof {
            let o = needs_view(old(variables)@);
            if forall|i: int, j: int|
                0 <= i < j < old(variables)@.len() ==> old(variables)@[i].0@ != old(variables)@[j].0@ {
                assert forall|i: int, j: int| 0 <= i < j < o.len() implies o[i].0 != o[j].0 by {
                    assert(o[i].0 == old(variables)@[i].0@);
                    assert(o[j].0 == old(variables)@[j].0@);
                }
                lemma_merge_distinct(o, direct_needs(self.tree(), context@, Seq::empty()));
                let f = needs_view(variables@);
                assert forall|i: int, j: int| 0 <= i < j < variables@.len() implies variables@[i].0@ != variables@[j].0@ by {
                    assert(f[i].0 == variables@[i].0@);
                    assert(f[j].0 == variables@[j].0@);
                }
            }
        }
    }
}

/// Inclusions found so far: those reached unconditionally, those inside a
/// conditional, and those inside a loop.
pub struct Inclusions {
    pub direct: Seq<Seq<char>>,
    pub conditional: Seq<Seq<char>>,
    pub looped: Seq<Seq<char>>,
}

/// Sorts the inclusions of `n` into `st`: one inside a loop is listed as looped
/// (once), else one inside a conditional as conditional (once), else as direct,
/// unless the name is listed already.
pub open spec fn inclusion_walk(n: Node, in_cond: bool, in_for: bool, st: Inclusions) -> Inclusions
    decreases n, 0int,
{
    match n {
        Node::Root(children) => inclusion_seq(children, in_cond, in_for, st),
        Node::For { body, .. } => inclusion_seq(body, in_cond, true, st),
        Node::If { body, else_branch, .. } => {
            let st1 = inclusion_seq(body, true, in_for, st);
            match else_branch {
                Some(e) => inclusion_walk(*e, true, in_for, st1),
                None => st1,
            }
        },
        Node::TemplateInclude(k) => if in_for && !st.looped.contains(k) {
            Inclusions { looped: st.looped.push(k), ..st }
        } else if in_cond {
            if st.conditional.contains(k) {
                st
            } else {
                Inclusions { conditional: st.conditional.push(k), ..st }
            }
        } else if st.direct.contains(k) || st.conditional.contains(k) || st.looped.contains(k) {
            st
        } else {
            Inclusions { direct: st.direct.push(k), ..st }
        },
        _ => st,
    }
}

/// `inclusion_walk` over each node in turn.
pub open spec fn inclusion_seq(ns: Seq<Node>, in_cond: bool, in_for: bool, st: Inclusions) -> Inclusions
    decreases ns, 0int,
{
    if ns.len() == 0 {
        st
    } else {
        inclusion_seq(ns.subrange(1, ns.len() as int), in_cond, in_for, inclusion_walk(ns[0], in_cond, in_for, st))
    }
}

/// The lists of found inclusions, as strings.
struct Found {
    direct: Vec<String>,
    conditional: Vec<String>,
    looped: Vec<String>,
}

impl Found {
    spec fn view(&self) -> Inclusions {
        Inclusions {
            direct: names_view(self.direct@),
            conditional: names_view(self.conditional@),
            looped: names_view(self.looped@),
        }
    }
}

fn push_name(v: &mut Vec<String>, k: &String)
    ensures
        names_view(final(v)@) == names_view(old(v)@).push(k@),
{
    v.push(k.clone());
    assert(names_view(v@) =~= names_view(old(v)@).push(k@));
}

fn find_template_inclusions(node: &AstNode, found: &mut Found, in_cond: bool, in_for: bool)
    ensures
        final(found).view() == inclusion_walk(node.model(), in_cond, in_for, old(found).view()),
    decreases node, 0int,
{
    match node {
        AstNode::Root(children) => find_inclusions_in(children, found, in_cond, in_for),
        AstNode::For { body, .. } => {
            proof {
                assert(decreases_to!(*node => node->For_body));
            }
            find_inclusions_in(body, found, in_cond, true)
        },
        AstNode::If { body, else_branch, .. } => {
            find_inclusions_in(body, found, true, in_for);
            match else_branch {
                Some(e) => find_template_inclusions(e, found, true, in_for),
                None => {},
            }
        },
        AstNode::TemplateInclude { template_name } => {
            if in_for && !is_active(&found.looped, template_name) {
                push_name(&mut found.looped, template_name);
            } else if in_cond {
                if !is_active(&found.conditional, template_name) {
                    push_name(&mut found.conditional, template_name);
                }
            } else if !is_active(&found.direct, template_name) && !is_active(
                &found.conditional,
                template_name,
            ) && !is_active(&found.looped, template_name) {
                push_name(&mut found.direct, template_name);
            }
        },
        _ => {},
    }
}

fn find_inclusions_in(nodes: &Vec<AstNode>, found: &mut Found, in_cond: bool, in_for: bool)
    ensures
        final(found).view() == inclusion_seq(models(nodes@), in_cond, in_for, old(found).view()),
    decreases nodes, 0int,
{
    let ghost ms = models(nodes@);
    proof {
        lemma_models(nodes@);
        assert(ms.subrange(0, ms.len() as int) =~= ms);
    }
    let mut i: usize = 0;
    while i < nodes.len()
        invariant
            i <= nodes@.len(),
            ms == models(nodes@),
            ms.len() == nodes@.len(),
            forall|j: int| 0 <= j < nodes@.len() ==> #[trigger] ms[j] == nodes@[j].model(),
            inclusion_seq(ms, in_cond, in_for, old(found).view()) == inclusion_seq(
                ms.subrange(i as int, ms.len() as int),
                in_cond,
                in_for,
                found.view(),
            ),
        decreases nodes@.len() - i,
    {
        let ghost rest = ms.subrange(i as int, ms.len() as int);
        proof {
            assert(rest.subrange(1, rest.len() as int) =~= ms.subrange(i + 1, ms.len() as int));
            broadcast use vstd::std_specs::vec::axiom_vec_index_decreases;
            assert(decreases_to!(*nodes => nodes[i as int]));
        }
        find_template_inclusions(&nodes[i], found, in_cond, in_for);
        i = i + 1;
    }
    proof {
        assert(ms.subrange(i as int, ms.len() as int) =~= Seq::<Node>::empty());
    }
}

impl Template {
    /// The templates this one includes unconditionally: outside every
    /// conditional and loop, in order, each once. The context is not consulted.
    pub fn find_template_inclusions(&self, _context: &Context) -> (r: Vec<String>)
        ensures
            names_view(r@) == inclusion_walk(
                self.tree(),
                false,
                false,
                Inclusions { direct: Seq::empty(), conditional: Seq::empty(), looped: Seq::empty() },
            ).direct,
    {
        let mut found = Found { direct: Vec::new(), conditional: Vec::new(), looped: Vec::new() };
        proof {
            assert(found.view() == Inclusions {
                direct: Seq::<Seq<char>>::empty(),
                conditional: Seq::<Seq<char>>::empty(),
                looped: Seq::<Seq<char>>::empty(),
            }) by {
                assert(names_view(found.direct@) =~= Seq::<Seq<char>>::empty());
                assert(names_view(found.conditional@) =~= Seq::<Seq<char>>::empty());
                assert(names_view(found.looped@) =~= Seq::<Seq<char>>::empty());
            }
        }
        find_template_inclusions(&self.ast, &mut found, false, false);
        found.direct
    }
}

} // verus!
