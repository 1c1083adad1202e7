//! Properties of the library stated over its models and proved.
use vstd::prelude::*;
use crate::ast::Node;
use crate::engine::{MinilateEngine, incl_needs, incl_seq, lemma_unvisited_push, unvisited, has_items};
use crate::error::ErrorModel;
use crate::interface::{VarModel, VariableTy};
use crate::parser::{
    constant_end, constant_text, control_spec, else_if_spec, else_spec, for_spec, if_block_spec,
    if_spec, node_spec, nodes_spec, template_spec,
};
use crate::template::{
    Ctx, Frame, Registry, Rendered, cond_known, direct_needs, direct_seq, eval_spec, find_template,
    outcome, placeholder, render_items, render_seq, render_spec, budget, split_commas, trimmed,
};
use crate::text::has_at;

verus! {

/// Rendering is deterministic: two renders of the same template by the same
/// engine against the same context give the same output, or the same error.
pub proof fn law_render_idempotent(
    engine: MinilateEngine,
    name: Seq<char>,
    ctx: Ctx,
    first: Result<String, crate::error::MinilateError>,
    second: Result<String, crate::error::MinilateError>,
)
    requires
        outcome(first) == engine.rendering(name, ctx),
        outcome(second) == engine.rendering(name, ctx),
    ensures
        outcome(first) == outcome(second),
        first is Ok <==> second is Ok,
        first is Ok ==> first->Ok_0@ == second->Ok_0@,
{
}

/// A loop over a variable declared `String` fails with a type mismatch that
/// names the variable, expects `Iterable` and found `String`; it is never
/// coerced.
pub proof fn law_string_iterable_is_a_type_mismatch(
    reg: Option<Registry>,
    active: Seq<Frame>,
    iterable: Seq<char>,
    variable: Seq<char>,
    body: Seq<Node>,
    ctx: Ctx,
)
    requires
        ctx.contains_key(iterable),
        ctx[iterable].ty == VariableTy::String,
    ensures
        render_spec(reg, active, Node::For { iterable, variable, body }, ctx) == Err::<Seq<char>, ErrorModel>(
            ErrorModel::TypeMismatch(iterable, VariableTy::Iterable, VariableTy::String),
        ),
{
}

/// Substituting a variable that the context lacks fails with `MissingVariable`;
/// one that the context binds without data, or with empty data (a `String`
/// with empty data in particular), fails with `MissingVariableData`; otherwise
/// the output is its data.
pub proof fn law_missing_key_and_missing_data_differ(
    reg: Option<Registry>,
    active: Seq<Frame>,
    name: Seq<char>,
    ctx: Ctx,
)
    ensures
        (render_spec(reg, active, Node::Variable(name), ctx) == Err::<Seq<char>, ErrorModel>(
            ErrorModel::MissingVariable(name),
        )) <==> !ctx.contains_key(name),
        (render_spec(reg, active, Node::Variable(name), ctx) == Err::<Seq<char>, ErrorModel>(
            ErrorModel::MissingVariableData(name),
        )) <==> (ctx.contains_key(name) && (ctx[name].data is None || ctx[name].data->Some_0.len()
            == 0)),
        ctx.contains_key(name) && ctx[name] == (VarModel {
            ty: VariableTy::String,
            data: Some(Seq::empty()),
        }) ==> render_spec(reg, active, Node::Variable(name), ctx) == Err::<Seq<char>, ErrorModel>(
            ErrorModel::MissingVariableData(name),
        ),
        ctx.contains_key(name) && ctx[name].data is Some && ctx[name].data->Some_0.len() > 0
            ==> render_spec(reg, active, Node::Variable(name), ctx) == Ok::<Seq<char>, ErrorModel>(
            ctx[name].data->Some_0,
        ),
{
}

/// A loop over an `Iterable` with non-empty data renders its body once per
/// comma-separated item, in order, with the loop variable bound to the item
/// trimmed of `White_Space` as a `String`; with empty data it renders nothing.
pub proof fn law_loop_renders_each_item(
    reg: Option<Registry>,
    active: Seq<Frame>,
    iterable: Seq<char>,
    variable: Seq<char>,
    body: Seq<Node>,
    ctx: Ctx,
)
    requires
        ctx.contains_key(iterable),
        ctx[iterable].ty == VariableTy::Iterable,
        ctx[iterable].data is Some,
    ensures
        ctx[iterable].data->Some_0.len() == 0 ==> render_spec(
            reg,
            active,
            Node::For { iterable, variable, body },
            ctx,
        ) == Ok::<Seq<char>, ErrorModel>(Seq::empty()),
        ctx[iterable].data->Some_0.len() > 0 ==> render_spec(
            reg,
            active,
            Node::For { iterable, variable, body },
            ctx,
        ) == render_items(reg, active, variable, body, split_commas(ctx[iterable].data->Some_0), ctx),
{
}

/// The analysis of inclusions terminates (its definition is well-founded) and
/// descends into each included name at most once: the names it records, one
/// per descent, extend those given and hold no duplicates.
pub proof fn law_inclusions_visited_once(reg: Registry, n: Node, ctx: Ctx, visited: Seq<Seq<char>>)
    requires
        visited.no_duplicates(),
    ensures
        incl_needs(reg, n, ctx, visited).1.no_duplicates(),
        visited.is_prefix_of(incl_needs(reg, n, ctx, visited).1),
    decreases unvisited(reg, visited), n, 0int,
{
    match n {
        Node::Root(children) => lemma_seq_visited_once(reg, children, ctx, visited),
        Node::If { condition, body, else_branch } => {
            if eval_spec(*condition, ctx) == Ok::<bool, ErrorModel>(true) {
                lemma_seq_visited_once(reg, body, ctx, visited);
            } else {
                match else_branch {
                    Some(e) => law_inclusions_visited_once(reg, *e, ctx, visited),
                    None => {},
                }
            }
        },
        Node::For { iterable, variable, body } => {
            if has_items(ctx, iterable) {
                lemma_seq_visited_once(reg, body, ctx.insert(variable, placeholder()), visited);
            }
        },
        Node::TemplateInclude(k) => {
            if !visited.contains(k) {
                let v2 = visited.push(k);
                assert(v2.no_duplicates()) by {
                    assert forall|i: int, j: int| 0 <= i < j < v2.len() implies v2[i] != v2[j] by {
                        if j == visited.len() {
                            assert(visited[i] == v2[i]);
                        }
                    }
                }
                assert(visited.is_prefix_of(v2)) by {
                    assert(v2.subrange(0, visited.len() as int) =~= visited);
                }
                match find_template(reg, k) {
                    None => {},
                    Some(t) => {
                        lemma_unvisited_push(reg, visited, k);
                        law_inclusions_visited_once(reg, t, ctx, v2);
                        let after = incl_needs(reg, t, ctx, v2).1;
                        assert(visited.is_prefix_of(after)) by {
                            assert(after.subrange(0, visited.len() as int) =~= visited) by {
                                assert forall|i: int| 0 <= i < visited.len() implies after[i] == visited[i] by {
                                    assert(after[i] == v2[i]);
                                }
                            }
                        }
                    },
                }
            } else {
                assert(visited.subrange(0, visited.len() as int) =~= visited);
            }
        },
        _ => {
            assert(visited.subrange(0, visited.len() as int) =~= visited);
        },
    }
}

proof fn lemma_seq_visited_once(reg: Registry, ns: Seq<Node>, ctx: Ctx, visited: Seq<Seq<char>>)
    requires
        visited.no_duplicates(),
    ensures
        incl_seq(reg, ns, ctx, visited).1.no_duplicates(),
        visited.is_prefix_of(incl_seq(reg, ns, ctx, visited).1),
    decreases unvisited(reg, visited), ns, 0int,
{
    if ns.len() == 0 {
        assert(visited.subrange(0, visited.len() as int) =~= visited);
    } else {
        law_inclusions_visited_once(reg, ns[0], ctx, visited);
        let v1 = incl_needs(reg, ns[0], ctx, visited).1;
        if unvisited(reg, v1) <= unvisited(reg, visited) {
            lemma_seq_visited_once(reg, ns.subrange(1, ns.len() as int), ctx, v1);
            let v2 = incl_seq(reg, ns.subrange(1, ns.len() as int), ctx, v1).1;
            assert(v2.subrange(0, visited.len() as int) =~= visited) by {
                assert forall|i: int| 0 <= i < visited.len() implies v2[i] == visited[i] by {
                    assert(v2[i] == v1[i]);
                }
            }
        }
    }
}

/// `s` holds no `\{{` escape.
pub open spec fn no_escape(s: Seq<char>) -> bool {
    forall|i: int| !has_at(s, i, "\\{{"@)
}

/// `t` is a contiguous piece of `s`.
pub open spec fn is_slice_of(t: Seq<char>, s: Seq<char>) -> bool {
    exists|i: int, j: int| 0 <= i <= j <= s.len() && t == s.subrange(i, j)
}

/// Every constant in `n` is a contiguous piece of `s`.
pub open spec fn constants_sliced(n: Node, s: Seq<char>) -> bool
    decreases n, 1int,
{
    match n {
        Node::Root(children) => seq_sliced(children, s),
        Node::Constant(t) => is_slice_of(t, s),
        Node::For { body, .. } => seq_sliced(body, s),
        Node::If { body, else_branch, .. } => seq_sliced(body, s) && match else_branch {
            Some(e) => constants_sliced(*e, s),
            None => true,
        },
        _ => true,
    }
}

/// `constants_sliced` of each of `ns`.
pub open spec fn seq_sliced(ns: Seq<Node>, s: Seq<char>) -> bool
    decreases ns, 0int,
{
    ns.len() == 0 || (constants_sliced(ns[0], s) && seq_sliced(ns.subrange(1, ns.len() as int), s))
}

/// Every constant in each of `ns` is a contiguous piece of `s`.
pub open spec fn all_sliced(ns: Seq<Node>, s: Seq<char>) -> bool {
    forall|k: int| 0 <= k < ns.len() ==> #[trigger] constants_sliced(ns[k], s)
}

proof fn lemma_seq_sliced(ns: Seq<Node>, s: Seq<char>)
    ensures
        seq_sliced(ns, s) == all_sliced(ns, s),
    decreases ns.len(),
{
    if ns.len() > 0 {
        let rest = ns.subrange(1, ns.len() as int);
        lemma_seq_sliced(rest, s);
        if all_sliced(ns, s) {
            assert(constants_sliced(ns[0], s));
            assert forall|k: int| 0 <= k < rest.len() implies #[trigger] constants_sliced(rest[k], s) by {
                assert(rest[k] == ns[k + 1]);
                assert(constants_sliced(ns[k + 1], s));
            }
            assert(seq_sliced(ns, s));
        }
        if seq_sliced(ns, s) {
            assert(all_sliced(rest, s));
            assert forall|k: int| 0 <= k < ns.len() implies #[trigger] constants_sliced(ns[k], s) by {
                if k > 0 {
                    assert(rest[k - 1] == ns[k]);
                    assert(constants_sliced(rest[k - 1], s));
                }
            }
        }
    }
}

proof fn lemma_constant_slice(s: Seq<char>, p: int)
    requires
        no_escape(s),
        0 <= p <= s.len(),
    ensures
        p <= constant_end(s, p) <= s.len(),
        constant_text(s, p) == s.subrange(p, constant_end(s, p)),
    decreases s.len() - p,
{
    assert(!has_at(s, p, "\\{{"@));
    if p < s.len() && !has_at(s, p, "{{"@) {
        lemma_constant_slice(s, p + 1);
        assert(seq![s[p]] + s.subrange(p + 1, constant_end(s, p + 1)) =~= s.subrange(p, constant_end(s, p)));
    } else {
        assert(s.subrange(p, p) =~= Seq::<char>::empty());
    }
}

proof fn lemma_node_sliced(s: Seq<char>, p: int)
    requires
        no_escape(s),
    ensures
        node_spec(s, p) is Ok ==> constants_sliced(node_spec(s, p)->Ok_0.0, s),
    decreases s.len() - p, 3int,
{
    if has_at(s, p, "{{%"@) {
        lemma_control_sliced(s, p);
    } else if has_at(s, p, "{{"@) {
    } else if 0 <= p <= s.len() {
        lemma_constant_slice(s, p);
    } else {
        assert(constant_text(s, p) =~= s.subrange(0, 0));
    }
}

#[verifier::rlimit(40)]
proof fn lemma_nodes_sliced(s: Seq<char>, p: int, end: Option<Seq<Seq<char>>>, acc: Seq<Node>)
    requires
        no_escape(s),
        all_sliced(acc, s),
    ensures
        nodes_spec(s, p, end, acc) is Ok ==> all_sliced(nodes_spec(s, p, end, acc)->Ok_0.0, s),
    decreases s.len() - p, 4int,
{
    if p >= s.len() {
    } else if end is Some && crate::parser::peek_spec(s, p, end->Some_0) {
    } else {
        lemma_node_sliced(s, p);
        match node_spec(s, p) {
            Err(_) => {},
            Ok((n, q)) => if p < q <= s.len() {
                assert(all_sliced(acc.push(n), s)) by {
                    assert forall|k: int| 0 <= k < acc.push(n).len() implies #[trigger] constants_sliced(acc.push(n)[k], s) by {
                        if k < acc.len() {
                            assert(acc.push(n)[k] == acc[k]);
                        }
                    }
                }
                lemma_nodes_sliced(s, q, end, acc.push(n));
            },
        }
    }
}

proof fn lemma_control_sliced(s: Seq<char>, p: int)
    requires
        no_escape(s),
    ensures
        control_spec(s, p) is Ok ==> constants_sliced(control_spec(s, p)->Ok_0.0, s),
    decreases s.len() - p, 2int,
{
    match crate::parser::expect_spec(s, p, "{{%"@) {
        Err(_) => {},
        Ok(p1) => match crate::parser::ident_spec(s, p1) {
            Err(_) => {},
            Ok((word, p2)) => if p < p2 <= s.len() {
                lemma_if_sliced(s, p2);
                lemma_for_sliced(s, p2);
            },
        },
    }
}

#[verifier::rlimit(40)]
proof fn lemma_for_sliced(s: Seq<char>, p: int)
    requires
        no_escape(s),
    ensures
        for_spec(s, p) is Ok ==> constants_sliced(for_spec(s, p)->Ok_0.0, s),
    decreases s.len() - p, 5int,
{
    let r = for_spec(s, p);
    if r is Ok {
        let (_, p1) = crate::parser::ident_spec(s, p)->Ok_0;
        let p2 = crate::parser::expect_spec(s, crate::parser::skip_space(s, p1), "in"@)->Ok_0;
        let (_, p3) = crate::parser::ident_spec(s, p2)->Ok_0;
        let p4 = crate::parser::expect_spec(s, crate::parser::skip_space(s, p3), "%}}"@)->Ok_0;
        assert(p <= p4 <= s.len());
        lemma_nodes_sliced(s, p4, Some(crate::parser::endfor_tag()), Seq::empty());
        let (body, p5) = nodes_spec(s, p4, Some(crate::parser::endfor_tag()), Seq::empty())->Ok_0;
        let (variable, _) = crate::parser::ident_spec(s, p)->Ok_0;
        let (iterable, _) = crate::parser::ident_spec(s, p2)->Ok_0;
        assert(r->Ok_0.0 == Node::For { iterable, variable, body });
        lemma_seq_sliced(body, s);
    }
}

proof fn lemma_if_sliced(s: Seq<char>, p: int)
    requires
        no_escape(s),
    ensures
        if_spec(s, p) is Ok ==> constants_sliced(if_spec(s, p)->Ok_0.0, s),
    decreases s.len() - p, 5int,
{
    match crate::parser::condition_spec(s, p) {
        Err(_) => {},
        Ok((c, p1)) => match crate::parser::expect_spec(s, crate::parser::skip_space(s, p1), "%}}"@) {
            Err(_) => {},
            Ok(p2) => if p < p2 <= s.len() {
                lemma_if_block_sliced(s, p2, c, Seq::empty());
            },
        },
    }
}

#[verifier::rlimit(40)]
proof fn lemma_if_block_sliced(s: Seq<char>, p: int, c: Node, body: Seq<Node>)
    requires
        no_escape(s),
        all_sliced(body, s),
    ensures
        if_block_spec(s, p, c, body) is Ok ==> constants_sliced(if_block_spec(s, p, c, body)->Ok_0.0, s),
    decreases s.len() - p, 5int,
{
    if p >= s.len() {
    } else if crate::parser::peek_spec(s, p, crate::parser::else_if_tag()) {
        lemma_else_if_sliced(s, p, c, body);
    } else if crate::parser::peek_spec(s, p, crate::parser::else_tag()) {
        lemma_else_sliced(s, p, c, body);
    } else if crate::parser::peek_spec(s, p, crate::parser::endif_tag()) {
        lemma_seq_sliced(body, s);
    } else {
        lemma_node_sliced(s, p);
        match node_spec(s, p) {
            Err(_) => {},
            Ok((n, q)) => if p < q <= s.len() {
                assert(all_sliced(body.push(n), s)) by {
                    assert forall|k: int| 0 <= k < body.push(n).len() implies #[trigger] constants_sliced(body.push(n)[k], s) by {
                        if k < body.len() {
                            assert(body.push(n)[k] == body[k]);
                        }
                    }
                }
                lemma_if_block_sliced(s, q, c, body.push(n));
            },
        }
    }
}

#[verifier::rlimit(40)]
proof fn lemma_else_if_sliced(s: Seq<char>, p: int, c: Node, body: Seq<Node>)
    requires
        no_escape(s),
        all_sliced(body, s),
    ensures
        else_if_spec(s, p, c, body) is Ok ==> constants_sliced(else_if_spec(s, p, c, body)->Ok_0.0, s),
    decreases s.len() - p, 4int,
{
    let r = else_if_spec(s, p, c, body);
    if r is Ok {
        let p1 = crate::parser::expect_spec(s, p, "{{%"@)->Ok_0;
        let p2 = crate::parser::expect_spec(s, crate::parser::skip_space(s, p1), "else"@)->Ok_0;
        let p3 = crate::parser::expect_spec(s, crate::parser::skip_space(s, p2), "if"@)->Ok_0;
        let (c2, p4) = crate::parser::condition_spec(s, crate::parser::skip_space(s, p3))->Ok_0;
        let p5 = crate::parser::expect_spec(s, crate::parser::skip_space(s, p4), "%}}"@)->Ok_0;
        if p < p5 <= s.len() {
            lemma_if_block_sliced(s, p5, c2, Seq::empty());
            let nested = if_block_spec(s, p5, c2, Seq::empty())->Ok_0.0;
            lemma_seq_sliced(body, s);
            assert(seq![nested].subrange(1, 1) =~= Seq::<Node>::empty());
            assert(seq_sliced(Seq::<Node>::empty(), s));
            assert(seq![nested][0] == nested);
            assert(seq_sliced(seq![nested], s));
            assert(constants_sliced(Node::Root(seq![nested]), s));
        }
    }
}

proof fn lemma_else_sliced(s: Seq<char>, p: int, c: Node, body: Seq<Node>)
    requires
        no_escape(s),
        all_sliced(body, s),
    ensures
        else_spec(s, p, c, body) is Ok ==> constants_sliced(else_spec(s, p, c, body)->Ok_0.0, s),
    decreases s.len() - p, 4int,
{
    lemma_seq_sliced(body, s);
    match crate::parser::closing_spec(s, p, "else"@) {
        Err(_) => {},
        Ok(p1) => if p < p1 <= s.len() {
            lemma_nodes_sliced(s, p1, Some(crate::parser::endif_tag()), Seq::empty());
            match nodes_spec(s, p1, Some(crate::parser::endif_tag()), Seq::empty()) {
                Err(_) => {},
                Ok((other, p2)) => {
                    lemma_else_result_sliced(s, c, body, other);
                },
            }
        },
    }
}

proof fn lemma_else_result_sliced(s: Seq<char>, c: Node, body: Seq<Node>, other: Seq<Node>)
    requires
        all_sliced(body, s),
        all_sliced(other, s),
    ensures
        constants_sliced(
            Node::If { condition: Box::new(c), body, else_branch: Some(Box::new(Node::Root(other))) },
            s,
        ),
{
    lemma_seq_sliced(body, s);
    lemma_seq_sliced(other, s);
    assert(constants_sliced(Node::Root(other), s));
}

/// Without `\{{` escapes the parser copies no text: every constant of the
/// parsed tree is a contiguous piece of the source.
pub proof fn law_constants_are_source_slices(s: Seq<char>)
    requires
        no_escape(s),
        template_spec(s) is Ok,
    ensures
        constants_sliced(template_spec(s)->Ok_0, s),
{
    lemma_nodes_sliced(s, 0, None, Seq::empty());
    let nodes = nodes_spec(s, 0, None, Seq::empty())->Ok_0.0;
    assert(template_spec(s)->Ok_0 == Node::Root(nodes));
    lemma_seq_sliced(nodes, s);
}

/// `n` includes no other template.
pub open spec fn inclusion_free(n: Node) -> bool
    decreases n, 1int,
{
    match n {
        Node::Root(children) => seq_inclusion_free(children),
        Node::For { body, .. } => seq_inclusion_free(body),
        Node::If { body, else_branch, .. } => seq_inclusion_free(body) && match else_branch {
            Some(e) => inclusion_free(*e),
            None => true,
        },
        Node::TemplateInclude(_) => false,
        _ => true,
    }
}

/// None of `ns` includes another template.
pub open spec fn seq_inclusion_free(ns: Seq<Node>) -> bool
    decreases ns, 0int,
{
    ns.len() == 0 || (inclusion_free(ns[0]) && seq_inclusion_free(ns.subrange(1, ns.len() as int)))
}

/// Whether a rendering result is a missing-variable or missing-data failure.
pub open spec fn is_missing(r: Rendered) -> bool {
    r is Err && (r->Err_0 is MissingVariable || r->Err_0 is MissingVariableData)
}

/// Each comma-separated item of `d` is non-blank once trimmed.
pub open spec fn items_nonblank(d: Seq<char>) -> bool {
    forall|i: int| 0 <= i < split_commas(d).len() ==> #[trigger] trimmed(split_commas(d)[i]).len() > 0
}

/// Every iterable of `ctx` holds only items that are non-blank once trimmed.
pub open spec fn iterables_nonblank(ctx: Ctx) -> bool {
    forall|k: Seq<char>|
        #[trigger] ctx.contains_key(k) && ctx[k].ty == VariableTy::Iterable && ctx[k].data is Some
            ==> items_nonblank(ctx[k].data->Some_0)
}

/// `r` binds the names `w` binds, to the same values, except the variables of
/// enclosing loops (in `loops`): there `r` holds a `String` with non-empty data.
pub open spec fn stands_for(r: Ctx, w: Ctx, loops: Seq<Seq<char>>) -> bool {
    &&& r.dom() == w.dom()
    &&& forall|k: Seq<char>|
        #[trigger] w.contains_key(k) ==> if loops.contains(k) {
            r[k].ty == VariableTy::String && r[k].data is Some && r[k].data->Some_0.len() > 0
                && w[k].data is Some && w[k].data->Some_0.len() > 0
        } else {
            r[k] == w[k]
        }
}

proof fn lemma_eval_no_missing(n: Node, ctx: Ctx)
    ensures
        eval_spec(n, ctx) is Err ==> eval_spec(n, ctx)->Err_0 is RenderError,
    decreases n,
{
    match n {
        Node::Not(c) => lemma_eval_no_missing(*c, ctx),
        Node::And(l, r) => {
            lemma_eval_no_missing(*l, ctx);
            lemma_eval_no_missing(*r, ctx);
        },
        Node::Or(l, r) => {
            lemma_eval_no_missing(*l, ctx);
            lemma_eval_no_missing(*r, ctx);
        },
        _ => {},
    }
}

proof fn lemma_eval_agrees(n: Node, r: Ctx, w: Ctx, loops: Seq<Seq<char>>)
    requires
        cond_known(n, w, loops),
        stands_for(r, w, loops),
    ensures
        eval_spec(n, r) == eval_spec(n, w),
    decreases n,
{
    match n {
        Node::Variable(name) => {
            assert(w.contains_key(name));
            assert(r.contains_key(name));
        },
        Node::Not(c) => lemma_eval_agrees(*c, r, w, loops),
        Node::And(a, b) => {
            lemma_eval_agrees(*a, r, w, loops);
            lemma_eval_agrees(*b, r, w, loops);
        },
        Node::Or(a, b) => {
            lemma_eval_agrees(*a, r, w, loops);
            lemma_eval_agrees(*b, r, w, loops);
        },
        _ => {},
    }
}

/// For a template that includes no other, when the analysis reports nothing
/// for a context whose iterables hold no item that trims to blank, rendering
/// it against that context fails neither for a missing variable nor for
/// missing data.
pub proof fn law_no_requirement_no_missing_variable(
    reg: Option<Registry>,
    active: Seq<Frame>,
    n: Node,
    ctx: Ctx,
)
    requires
        inclusion_free(n),
        direct_needs(n, ctx, Seq::empty()).len() == 0,
        iterables_nonblank(ctx),
    ensures
        !is_missing(render_spec(reg, active, n, ctx)),
{
    assert(stands_for(ctx, ctx, Seq::empty()));
    lemma_node_no_missing(reg, active, n, ctx, ctx, Seq::empty());
}

proof fn lemma_node_no_missing(
    reg: Option<Registry>,
    active: Seq<Frame>,
    n: Node,
    r: Ctx,
    w: Ctx,
    loops: Seq<Seq<char>>,
)
    requires
        inclusion_free(n),
        direct_needs(n, w, loops).len() == 0,
        stands_for(r, w, loops),
        iterables_nonblank(r),
    ensures
        !is_missing(render_spec(reg, active, n, r)),
    decreases budget(active), n, 0int,
{
    match n {
        Node::Root(children) => lemma_seq_no_missing(reg, active, children, r, w, loops),
        Node::Variable(name) => {
            assert(w.contains_key(name));
        },
        Node::For { iterable, variable, body } => {
            assert(w.contains_key(iterable));
            if r[iterable].ty == VariableTy::Iterable && r[iterable].data is Some
                && r[iterable].data->Some_0.len() > 0 {
                assert(!loops.contains(iterable));
                assert(r[iterable] == w[iterable]);
                let d = r[iterable].data->Some_0;
                assert(items_nonblank(d));
                assert(w[iterable].data != Some(Seq::<char>::empty())) by {
                    if w[iterable].data == Some(Seq::<char>::empty()) {
                        assert(d.len() == 0);
                    }
                }
                lemma_items_no_missing(reg, active, variable, body, split_commas(d), r, w, loops);
            }
        },
        Node::If { condition, body, else_branch } => {
            lemma_eval_no_missing(*condition, r);
            if cond_known(*condition, w, loops) {
                lemma_eval_agrees(*condition, r, w, loops);
            }
            match eval_spec(*condition, r) {
                Ok(true) => lemma_seq_no_missing(reg, active, body, r, w, loops),
                Ok(false) => match else_branch {
                    Some(e) => lemma_node_no_missing(reg, active, *e, r, w, loops),
                    None => {},
                },
                Err(_) => {},
            }
        },
        _ => {},
    }
}

proof fn lemma_seq_no_missing(
    reg: Option<Registry>,
    active: Seq<Frame>,
    ns: Seq<Node>,
    r: Ctx,
    w: Ctx,
    loops: Seq<Seq<char>>,
)
    requires
        seq_inclusion_free(ns),
        direct_seq(ns, w, loops).len() == 0,
        stands_for(r, w, loops),
        iterables_nonblank(r),
    ensures
        !is_missing(render_seq(reg, active, ns, r)),
    decreases budget(active), ns, 0int,
{
    if ns.len() > 0 {
        let rest = ns.subrange(1, ns.len() as int);
        lemma_node_no_missing(reg, active, ns[0], r, w, loops);
        lemma_seq_no_missing(reg, active, rest, r, w, loops);
    }
}

proof fn lemma_items_no_missing(
    reg: Option<Registry>,
    active: Seq<Frame>,
    variable: Seq<char>,
    body: Seq<Node>,
    items: Seq<Seq<char>>,
    r: Ctx,
    w: Ctx,
    loops: Seq<Seq<char>>,
)
    requires
        seq_inclusion_free(body),
        direct_seq(body, w.insert(variable, placeholder()), loops.push(variable)).len() == 0,
        forall|i: int| 0 <= i < items.len() ==> #[trigger] trimmed(items[i]).len() > 0,
        stands_for(r, w, loops),
        iterables_nonblank(r),
    ensures
        !is_missing(render_items(reg, active, variable, body, items, r)),
    decreases budget(active), body, items.len() + 1,
{
    if items.len() > 0 {
        let v = VarModel { ty: VariableTy::String, data: Some(trimmed(items[0])) };
        let r2 = r.insert(variable, v);
        let w2 = w.insert(variable, placeholder());
        assert(trimmed(items[0]).len() > 0);
        assert(r2.dom() =~= w2.dom());
        let l2 = loops.push(variable);
        assert(l2.contains(variable)) by {
            assert(l2[loops.len() as int] == variable);
        }
        assert forall|k: Seq<char>| l2.contains(k) && k != variable implies loops.contains(k) by {
            let j = choose|j: int| 0 <= j < l2.len() && l2[j] == k;
            assert(loops[j] == k);
        }
        assert forall|k: Seq<char>| loops.contains(k) implies l2.contains(k) by {
            let j = choose|j: int| 0 <= j < loops.len() && loops[j] == k;
            assert(l2[j] == k);
        }
        reveal_strlit("dummy");
        assert(stands_for(r2, w2, l2));
        assert forall|k: Seq<char>|
            #[trigger] r2.contains_key(k) && r2[k].ty == VariableTy::Iterable && r2[k].data is Some
                implies items_nonblank(r2[k].data->Some_0) by {
            assert(k != variable);
            assert(r.contains_key(k));
        }
        lemma_seq_no_missing(reg, active, body, r2, w2, l2);
        let rest = items.subrange(1, items.len() as int);
        assert forall|i: int| 0 <= i < rest.len() implies #[trigger] trimmed(rest[i]).len() > 0 by {
            assert(rest[i] == items[i + 1]);
        }
        lemma_items_no_missing(reg, active, variable, body, rest, r, w, loops);
    }
}

} // verus!
