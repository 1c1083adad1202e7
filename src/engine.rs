//! The template registry: named templates, rendered and analysed by name.
use vstd::prelude::*;
use crate::ast::Node;
use crate::error::{ErrorModel, MinilateError};
use crate::interface::{Context, MinilateInterface, VariableTy};
use crate::parser::{location, template_spec};
use crate::ast::{AstNode, lemma_models, models};
use crate::template::{
    Ctx, Need, Registry, Template, direct_needs, eval_spec, evaluate_condition, find_template,
    Rendered, is_active, lemma_merge_concat, listed_need, merge, names_view, needs_view, outcome,
    placeholder, placeholder_variable,
    render_spec,
};
use crate::text::{as_count, is_blank, lemma_name_lt_transitive, lemma_name_order, name_less, name_lt, owned, same_text};

verus! {

/// A registry of named templates; `add_template` refuses a name already taken.
pub struct MinilateEngine {
    templates: Vec<(String, Template)>,
}

impl MinilateEngine {
    /// The registered templates in the model, in order of registration.
    pub closed spec fn registry(&self) -> Registry {
        Seq::new(self.templates@.len(), |i: int| (self.templates@[i].0@, self.templates@[i].1.tree()))
    }

    /// The source text of the `i`-th registered template.
    pub closed spec fn source_at(&self, i: int) -> Seq<char> {
        self.templates@[i].1.source()
    }

    /// The registered templates' names and source texts, in order of registration.
    pub fn sources(&self) -> (r: Vec<(String, String)>)
        ensures
            r@.len() == self.registry().len(),
            forall|i: int| 0 <= i < r@.len() ==> #[trigger] r@[i].0@ == self.registry()[i].0
                && r@[i].1@ == self.source_at(i),
    {
        let mut out: Vec<(String, String)> = Vec::new();
        let mut i: usize = 0;
        while i < self.templates.len()
            invariant
                i <= self.templates@.len(),
                out@.len() == i,
                forall|j: int| 0 <= j < i ==> #[trigger] out@[j].0@ == self.registry()[j].0
                    && out@[j].1@ == self.source_at(j),
            decreases self.templates@.len() - i,
        {
            let name = self.templates[i].0.clone();
            let text = owned(self.templates[i].1.content());
            out.push((name, text));
            proof {
                assert(self.registry()[i as int].0 == self.templates@[i as int].0@);
                assert(out@[i as int].0@ == self.registry()[i as int].0);
                assert forall|j: int| 0 <= j < i + 1 implies #[trigger] out@[j].0@ == self.registry()[j].0
                    && out@[j].1@ == self.source_at(j) by {
                }
            }
            i = i + 1;
        }
        out
    }

    /// An empty registry.
    pub fn new() -> (r: Self)
        ensures
            r.registry() == Seq::<(Seq<char>, Node)>::empty(),
    {
        let r = MinilateEngine { templates: Vec::new() };
        assert(r.registry() =~= Seq::<(Seq<char>, Node)>::empty());
        r
    }

    /// The number of registered templates.
    pub(crate) fn template_count(&self) -> (r: usize)
        ensures
            r == self.registry().len(),
    {
        self.templates.len()
    }

    /// The template registered as `name`, if any.
    pub(crate) fn lookup(&self, name: &String) -> (r: Option<&Template>)
        ensures
            match r {
                Some(t) => find_template(self.registry(), name@) == Some(t.tree()),
                None => find_template(self.registry(), name@) is None,
            },
    {
        let ghost reg = self.registry();
        let mut i: usize = 0;
        assert(reg.subrange(0, reg.len() as int) =~= reg);
        while i < self.templates.len()
            invariant
                i <= self.templates@.len(),
                reg == self.registry(),
                find_template(reg, name@) == find_template(reg.subrange(i as int, reg.len() as int), name@),
            decreases self.templates@.len() - i,
        {
            let ghost rest = reg.subrange(i as int, reg.len() as int);
            assert(rest.subrange(1, rest.len() as int) =~= reg.subrange(i + 1, reg.len() as int));
            if same_text(&self.templates[i].0, name) {
                return Some(&self.templates[i].1);
            }
            i = i + 1;
        }
        None
    }
}

impl MinilateEngine {
    /// Parses `content` and registers it as `name`. Fails, leaving the registry
    /// as it was, when `name` is taken or `content` does not parse.
    #[verifier::rlimit(40)]
    pub fn add_template(&mut self, name: &str, content: &str) -> (r: Result<(), MinilateError>)
        ensures
            find_template(old(self).registry(), name@) is Some ==> r is Err && r->Err_0@
                == ErrorModel::TemplateExists(name@) && final(self).registry() == old(self).registry(),
            find_template(old(self).registry(), name@) is None ==> match template_spec(content@) {
                Ok(tree) => r is Ok && final(self).registry() == old(self).registry().push((name@, tree)),
                Err(f) => r is Err && r->Err_0@ == ErrorModel::Parse(
                    as_count(location(content@, f.pos).0),
                    as_count(location(content@, f.pos).1),
                    f.kind,
                ) && final(self).registry() == old(self).registry(),
            },
    {
        let key = owned(name);
        match self.lookup(&key) {
            Some(_) => {
                return Err(MinilateError::TemplateExists { template_name: key });
            },
            None => {},
        }
        let mut template = match Template::new(content) {
            Ok(t) => t,
            Err(e) => return Err(e),
        };
        template.set_name(name);
        self.templates.push((key, template));
        assert(self.registry() =~= old(self).registry().push((name@, template_spec(content@)->Ok_0)));
        Ok(())
    }

    /// What rendering the template registered as `name` against `ctx` yields:
    /// `MissingTemplate` for an unknown name, else the render of its tree with
    /// inclusions resolved through this registry.
    pub open spec fn rendering(&self, name: Seq<char>, ctx: Ctx) -> Rendered {
        match find_template(self.registry(), name) {
            None => Err(ErrorModel::MissingTemplate(name)),
            Some(tree) => render_spec(Some(self.registry()), seq![(name, ctx)], tree, ctx),
        }
    }

    /// Renders the template registered as `name` against `context` (empty when
    /// absent), resolving inclusions through this registry.
    pub fn render(&self, name: &str, context: Option<&Context>) -> (r: Result<String, MinilateError>)
        ensures
            outcome(r) == self.rendering(
                name@,
                match context {
                    Some(c) => c@,
                    None => Map::empty(),
                },
            ),
    {
        let key = owned(name);
        let template = match self.lookup(&key) {
            Some(t) => t,
            None => return Err(MinilateError::MissingTemplate { template_name: key }),
        };
        let empty = Context::new();
        let ctx = match context {
            Some(c) => c,
            None => &empty,
        };
        template.render_as(&key, ctx, Some(self))
    }
}

/// How many registry entries carry a name not yet in `visited`.
pub open spec fn unvisited(reg: Registry, visited: Seq<Seq<char>>) -> nat
    decreases reg.len(),
{
    if reg.len() == 0 {
        0
    } else {
        (if visited.contains(reg[0].0) {
            0nat
        } else {
            1nat
        }) + unvisited(reg.subrange(1, reg.len() as int), visited)
    }
}

/// Visiting more names leaves no more entries unvisited.
pub proof fn lemma_unvisited_mono(reg: Registry, v: Seq<Seq<char>>, w: Seq<Seq<char>>)
    requires
        forall|x: Seq<char>| v.contains(x) ==> w.contains(x),
    ensures
        unvisited(reg, w) <= unvisited(reg, v),
    decreases reg.len(),
{
    if reg.len() > 0 {
        lemma_unvisited_mono(reg.subrange(1, reg.len() as int), v, w);
    }
}

/// Visiting a registered name not yet visited leaves fewer entries unvisited.
pub proof fn lemma_unvisited_push(reg: Registry, v: Seq<Seq<char>>, k: Seq<char>)
    requires
        find_template(reg, k) is Some,
        !v.contains(k),
    ensures
        unvisited(reg, v.push(k)) < unvisited(reg, v),
    decreases reg.len(),
{
    let rest = reg.subrange(1, reg.len() as int);
    assert(v.push(k).contains(k)) by {
        assert(v.push(k)[v.len() as int] == k);
    }
    assert forall|x: Seq<char>| v.contains(x) implies v.push(k).contains(x) by {
        let j = choose|j: int| 0 <= j < v.len() && v[j] == x;
        assert(v.push(k)[j] == x);
    }
    if reg[0].0 == k {
        lemma_unvisited_mono(rest, v, v.push(k));
    } else {
        lemma_unvisited_push(rest, v, k);
        if v.push(k).contains(reg[0].0) {
            let j = choose|j: int| 0 <= j < v.push(k).len() && v.push(k)[j] == reg[0].0;
            assert(v.contains(reg[0].0)) by {
                assert(v[j] == reg[0].0);
            }
        }
    }
}

/// Whether the loop over `iterable` has items in `ctx`.
pub open spec fn has_items(ctx: Ctx, iterable: Seq<char>) -> bool {
    ctx.contains_key(iterable) && ctx[iterable].data is Some && ctx[iterable].data->Some_0.len() > 0
}

/// The requirements of the templates that `n` includes where rendering would
/// reach them under `ctx`, in order, and the names visited after the walk.
/// Each inclusion is followed once per analysis: a name in `visited` is skipped.
/// A loop with items is walked once, its variable bound to a stand-in.
pub open spec fn incl_needs(reg: Registry, n: Node, ctx: Ctx, visited: Seq<Seq<char>>) -> (Seq<Need>, Seq<Seq<char>>)
    decreases unvisited(reg, visited), n, 0int,
{
    match n {
        Node::Root(children) => incl_seq(reg, children, ctx, visited),
        Node::If { condition, body, else_branch } => if eval_spec(*condition, ctx) == Ok::<bool, ErrorModel>(true) {
            incl_seq(reg, body, ctx, visited)
        } else {
            match else_branch {
                Some(e) => incl_needs(reg, *e, ctx, visited),
                None => (Seq::empty(), visited),
            }
        },
        Node::For { iterable, variable, body } => if has_items(ctx, iterable) {
            incl_seq(reg, body, ctx.insert(variable, placeholder()), visited)
        } else {
            (Seq::empty(), visited)
        },
        Node::TemplateInclude(k) => if visited.contains(k) {
            (Seq::empty(), visited)
        } else {
            match find_template(reg, k) {
                None => (Seq::empty(), visited.push(k)),
                Some(t) => {
                    proof {
                        lemma_unvisited_push(reg, visited, k);
                    }
                    let (more, after) = incl_needs(reg, t, ctx, visited.push(k));
                    (direct_needs(t, ctx, Seq::empty()) + more, after)
                },
            }
        },
        _ => (Seq::empty(), visited),
    }
}

/// `incl_needs` of each node in turn, threading the visited names.
pub open spec fn incl_seq(reg: Registry, ns: Seq<Node>, ctx: Ctx, visited: Seq<Seq<char>>) -> (Seq<Need>, Seq<Seq<char>>)
    decreases unvisited(reg, visited), ns, 0int,
{
    if ns.len() == 0 {
        (Seq::empty(), visited)
    } else {
        let (first, v1) = incl_needs(reg, ns[0], ctx, visited);
        if unvisited(reg, v1) <= unvisited(reg, visited) {
            let (rest, v2) = incl_seq(reg, ns.subrange(1, ns.len() as int), ctx, v1);
            (first + rest, v2)
        } else {
            (first, v1)
        }
    }
}

/// Everything a template with tree `t` needs under `ctx`: its direct
/// requirements, then those of the templates it reaches by inclusion.
pub open spec fn all_needs(reg: Registry, t: Node, ctx: Ctx) -> Seq<Need> {
    direct_needs(t, ctx, Seq::empty()) + incl_needs(reg, t, ctx, Seq::empty()).0
}

/// The type of the first requirement named `name`, if any.
pub open spec fn first_type(found: Seq<Need>, name: Seq<char>) -> Option<VariableTy>
    decreases found.len(),
{
    if found.len() == 0 {
        None
    } else if found[0].0 == name {
        Some(found[0].1)
    } else {
        first_type(found.subrange(1, found.len() as int), name)
    }
}

/// `r` lists each name of `found` once, with the type of its first
/// requirement, sorted by name.
pub open spec fn sorted_firsts(r: Seq<Need>, found: Seq<Need>) -> bool {
    &&& forall|i: int, j: int| 0 <= i < j < r.len() ==> name_lt(r[i].0, r[j].0)
    &&& forall|i: int| 0 <= i < r.len() ==> first_type(found, r[i].0) == Some(r[i].1)
    &&& forall|name: Seq<char>|
        #[trigger] first_type(found, name) is Some ==> exists|i: int| 0 <= i < r.len() && r[i].0 == name
}

proof fn lemma_first_type_push(found: Seq<Need>, x: Need, name: Seq<char>)
    ensures
        first_type(found.push(x), name) == if first_type(found, name) is Some {
            first_type(found, name)
        } else if x.0 == name {
            Some(x.1)
        } else {
            None::<VariableTy>
        },
    decreases found.len(),
{
    let p = found.push(x);
    if found.len() == 0 {
        assert(p.subrange(1, p.len() as int) =~= Seq::<Need>::empty());
    } else {
        assert(p.subrange(1, p.len() as int) =~= found.subrange(1, found.len() as int).push(x));
        lemma_first_type_push(found.subrange(1, found.len() as int), x, name);
    }
}

proof fn lemma_first_type_concat(a: Seq<Need>, b: Seq<Need>, n: Seq<char>)
    ensures
        first_type(a + b, n) == if first_type(a, n) is Some {
            first_type(a, n)
        } else {
            first_type(b, n)
        },
    decreases a.len(),
{
    if a.len() == 0 {
        assert(a + b =~= b);
    } else {
        assert((a + b).subrange(1, (a + b).len() as int) =~= a.subrange(1, a.len() as int) + b);
        lemma_first_type_concat(a.subrange(1, a.len() as int), b, n);
    }
}

proof fn lemma_listed_first_type(a: Seq<Need>, n: Seq<char>)
    requires
        listed_need(a, n),
    ensures
        first_type(a, n) is Some,
    decreases a.len(),
{
    if a[0].0 != n {
        let j = choose|j: int| 0 <= j < a.len() && a[j].0 == n;
        let t = a.subrange(1, a.len() as int);
        assert(t[j - 1] == a[j]);
        lemma_listed_first_type(t, n);
    }
}

/// Merging keeps, for every name, the type of its first requirement.
proof fn lemma_merge_first_type(acc: Seq<Need>, s: Seq<Need>)
    ensures
        forall|n: Seq<char>| #[trigger] first_type(merge(acc, s), n) == first_type(acc + s, n),
    decreases s.len(),
{
    if s.len() == 0 {
        assert(acc + s =~= acc);
    } else {
        let x = s[0];
        let rest = s.subrange(1, s.len() as int);
        if listed_need(acc, x.0) {
            lemma_merge_first_type(acc, rest);
            assert forall|n: Seq<char>| #[trigger] first_type(merge(acc, s), n) == first_type(acc + s, n) by {
                lemma_first_type_concat(acc, rest, n);
                lemma_first_type_concat(acc, s, n);
                lemma_listed_first_type(acc, x.0);
                assert(s.subrange(1, s.len() as int) == rest);
            }
        } else {
            lemma_merge_first_type(acc.push(x), rest);
            assert(acc.push(x) + rest =~= acc + s);
        }
    }
}

/// Sorts requirements by name, keeping the first of each name.
#[verifier::rlimit(40)]
fn sort_needs(found: &Vec<(String, VariableTy)>) -> (r: Vec<(String, VariableTy)>)
    ensures
        sorted_firsts(needs_view(r@), needs_view(found@)),
{
    let ghost fv = needs_view(found@);
    let mut out: Vec<(String, VariableTy)> = Vec::new();
    let mut k: usize = 0;
    while k < found.len()
        invariant
            k <= found@.len(),
            fv == needs_view(found@),
            sorted_firsts(needs_view(out@), fv.subrange(0, k as int)),
        decreases found@.len() - k,
    {
        let ghost before = needs_view(out@);
        let ghost pre = fv.subrange(0, k as int);
        let name = &found[k].0;
        let ty = found[k].1;
        proof {
            assert(fv.subrange(0, k + 1) =~= pre.push((name@, ty)));
            lemma_first_type_push(pre, (name@, ty), name@);
        }
        let mut j: usize = 0;
        while j < out.len() && name_less(&out[j].0, name)
            invariant
                j <= out@.len(),
                before == needs_view(out@),
                forall|i: int| 0 <= i < j ==> name_lt(before[i].0, name@),
            decreases out@.len() - j,
        {
            j = j + 1;
        }
        if j < out.len() && same_text(&out[j].0, name) {
            proof {
                assert forall|n2: Seq<char>| #![auto] first_type(fv.subrange(0, k + 1), n2) == first_type(pre, n2) by {
                    lemma_first_type_push(pre, (name@, ty), n2);
                    if n2 == name@ {
                        assert(first_type(pre, n2) == Some(before[j as int].1));
                    }
                }
                let now = fv.subrange(0, k + 1);
                assert(needs_view(out@) == before);
                assert forall|i: int| 0 <= i < before.len() implies first_type(now, before[i].0) == Some(before[i].1) by {
                    assert(first_type(now, before[i].0) == first_type(pre, before[i].0));
                }
                assert forall|n2: Seq<char>| #[trigger] first_type(now, n2) is Some implies exists|i: int| 0 <= i < before.len() && before[i].0 == n2 by {
                    assert(first_type(now, n2) == first_type(pre, n2));
                }
                assert(sorted_firsts(before, now));
            }
        } else {
            out.insert(j, (name.clone(), ty));
            proof {
                let after = needs_view(out@);
                assert(after =~= before.insert(j as int, (name@, ty)));
                // `name` is new: no entry of `before` carries it.
                assert forall|i: int| 0 <= i < before.len() implies before[i].0 != name@ by {
                    if i < j {
                        lemma_name_order(before[i].0, name@);
                    } else {
                        if j < before.len() {
                            lemma_name_order(before[j as int].0, name@);
                            if i > j {
                                lemma_name_lt_transitive(name@, before[j as int].0, before[i].0);
                                lemma_name_order(name@, before[i].0);
                            }
                        }
                    }
                }
                assert(first_type(pre, name@) is None) by {
                    if first_type(pre, name@) is Some {
                        let i = choose|i: int| 0 <= i < before.len() && before[i].0 == name@;
                    }
                }
                assert forall|a: int, b: int| 0 <= a < b < after.len() implies name_lt(after[a].0, after[b].0) by {
                    if j < before.len() {
                        lemma_name_order(before[j as int].0, name@);
                    }
                    if a < j && b == j {
                    } else if a == j && b > j {
                        if b - 1 > j {
                            lemma_name_lt_transitive(name@, before[j as int].0, before[b - 1].0);
                        }
                    } else if a < j && b > j {
                        if b - 1 > j {
                            lemma_name_lt_transitive(before[a].0, name@, before[j as int].0);
                            lemma_name_lt_transitive(before[a].0, before[j as int].0, before[b - 1].0);
                        } else {
                            lemma_name_lt_transitive(before[a].0, name@, before[j as int].0);
                        }
                    }
                }
                assert forall|i: int| 0 <= i < after.len() implies first_type(fv.subrange(0, k + 1), after[i].0) == Some(after[i].1) by {
                    lemma_first_type_push(pre, (name@, ty), after[i].0);
                }
                assert forall|n2: Seq<char>| #[trigger] first_type(fv.subrange(0, k + 1), n2) is Some implies exists|i: int| 0 <= i < after.len() && after[i].0 == n2 by {
                    assert(first_type(pre, n2) is Some ==> exists|i: int| 0 <= i < before.len() && before[i].0 == n2);
                    lemma_first_type_push(pre, (name@, ty), n2);
                    if n2 == name@ {
                        assert(after[j as int].0 == n2);
                    } else {
                        assert(first_type(pre, n2) is Some);
                        let i = choose|i: int| 0 <= i < before.len() && before[i].0 == n2;
                        if i < j {
                            assert(after[i].0 == n2);
                        } else {
                            assert(after[i + 1].0 == n2);
                        }
                    }
                }
                assert(sorted_firsts(after, fv.subrange(0, k + 1)));
            }
        }
        k = k + 1;
    }
    proof {
        assert(fv.subrange(0, k as int) =~= fv);
    }
    out
}

/// The names in `v` are still in `w`.
pub open spec fn kept(v: Seq<Seq<char>>, w: Seq<Seq<char>>) -> bool {
    forall|x: Seq<char>| v.contains(x) ==> #[trigger] w.contains(x)
}

impl MinilateEngine {
    /// Appends to `variables` the requirements of the templates `node` reaches
    /// by inclusion under `context` (see `incl_needs`), recording visited names.
    #[verifier::rlimit(40)]
    fn collect_inclusion_variables(
        &self,
        node: &AstNode,
        variables: &mut Vec<(String, VariableTy)>,
        context: &Context,
        visited: &mut Vec<String>,
    )
        ensures
            needs_view(final(variables)@) == merge(needs_view(old(variables)@), incl_needs(
                self.registry(),
                node.model(),
                context@,
                names_view(old(visited)@),
            ).0),
            names_view(final(visited)@) == incl_needs(
                self.registry(),
                node.model(),
                context@,
                names_view(old(visited)@),
            ).1,
            kept(names_view(old(visited)@), names_view(final(visited)@)),
            names_view(old(visited)@).no_duplicates() ==> names_view(final(visited)@).no_duplicates()
                && names_view(old(visited)@).is_prefix_of(names_view(final(visited)@)),
        decreases unvisited(self.registry(), names_view(old(visited)@)), node, 0int,
    {
        let ghost reg = self.registry();
        let ghost v0 = names_view(visited@);
        proof {
            if v0.no_duplicates() {
                crate::laws::law_inclusions_visited_once(reg, node.model(), context@, v0);
            }
        }
        match node {
            AstNode::Root(children) => self.collect_inclusion_nodes(children, variables, context, visited),
            AstNode::If { condition, body, else_branch } => {
                let reached = match evaluate_condition(condition, context) {
                    Ok(b) => b,
                    Err(_) => false,
                };
                if reached {
                    self.collect_inclusion_nodes(body, variables, context, visited);
                } else {
                    match else_branch {
                        Some(e) => self.collect_inclusion_variables(e, variables, context, visited),
                        None => {
                            assert(merge(needs_view(variables@), Seq::<Need>::empty()) == needs_view(variables@));
                        },
                    }
                }
            },
            AstNode::For { iterable, variable, body } => {
                let has = match context.get_by(iterable) {
                    Some(v) => match v.data_string() {
                        Some(d) => !is_blank(d),
                        None => false,
                    },
                    None => false,
                };
                if has {
                    let mut inner = context.duplicate();
                    inner.insert(variable.as_str(), placeholder_variable());
                    proof {
                        assert(decreases_to!(*node => node->For_body));
                    }
                    self.collect_inclusion_nodes(body, variables, &inner, visited);
                } else {
                    assert(merge(needs_view(variables@), Seq::<Need>::empty()) == needs_view(variables@));
                }
            },
            AstNode::TemplateInclude { template_name } => {
                if is_active(visited, template_name) {
                    assert(merge(needs_view(variables@), Seq::<Need>::empty()) == needs_view(variables@));
                    return;
                }
                visited.push(template_name.clone());
                proof {
                    assert(names_view(visited@) =~= v0.push(template_name@));
                    assert forall|x: Seq<char>| v0.contains(x) implies #[trigger] names_view(visited@).contains(x) by {
                        let j = choose|j: int| 0 <= j < v0.len() && v0[j] == x;
                        assert(names_view(visited@)[j] == x);
                    }
                }
                match self.lookup(template_name) {
                    None => {
                        assert(merge(needs_view(variables@), Seq::<Need>::empty()) == needs_view(variables@));
                    },
                    Some(t) => {
                        let ghost v1 = names_view(visited@);
                        proof {
                            lemma_unvisited_push(reg, v0, template_name@);
                        }
                        t.collect_variables(variables, context);
                        self.collect_inclusion_variables(t.ast(), variables, context, visited);
                        proof {
                            let (more, after) = incl_needs(reg, t.tree(), context@, v1);
                            lemma_merge_concat(needs_view(old(variables)@), direct_needs(t.tree(), context@, Seq::empty()), more);
                            assert forall|x: Seq<char>| v0.contains(x) implies #[trigger] names_view(visited@).contains(x) by {
                                assert(v1.contains(x));
                            }
                        }
                    },
                }
            },
            _ => {
                assert(merge(needs_view(variables@), Seq::<Need>::empty()) == needs_view(variables@));
            },
        }
    }

    /// `collect_inclusion_variables` over each of `nodes` in turn.
    #[verifier::rlimit(40)]
    fn collect_inclusion_nodes(
        &self,
        nodes: &Vec<AstNode>,
        variables: &mut Vec<(String, VariableTy)>,
        context: &Context,
        visited: &mut Vec<String>,
    )
        ensures
            needs_view(final(variables)@) == merge(needs_view(old(variables)@), incl_seq(
                self.registry(),
                models(nodes@),
                context@,
                names_view(old(visited)@),
            ).0),
            names_view(final(visited)@) == incl_seq(
                self.registry(),
                models(nodes@),
                context@,
                names_view(old(visited)@),
            ).1,
            kept(names_view(old(visited)@), names_view(final(visited)@)),
        decreases unvisited(self.registry(), names_view(old(visited)@)), nodes, 0int,
    {
        let ghost reg = self.registry();
        let ghost ms = models(nodes@);
        let ghost v0 = names_view(visited@);
        let ghost start = needs_view(variables@);
        proof {
            lemma_models(nodes@);
            assert(ms.subrange(0, ms.len() as int) =~= ms);
        }
        let mut i: usize = 0;
        while i < nodes.len()
            invariant
                i <= nodes@.len(),
                reg == self.registry(),
                ms == models(nodes@),
                ms.len() == nodes@.len(),
                forall|j: int| 0 <= j < nodes@.len() ==> #[trigger] ms[j] == nodes@[j].model(),
                unvisited(reg, names_view(visited@)) <= unvisited(reg, v0),
                kept(v0, names_view(visited@)),
                merge(start, incl_seq(reg, ms, context@, v0).0) == merge(
                    needs_view(variables@),
                    incl_seq(reg, ms.subrange(i as int, ms.len() as int), context@, names_view(visited@)).0,
                ),
                incl_seq(reg, ms, context@, v0).1 == incl_seq(
                    reg,
                    ms.subrange(i as int, ms.len() as int),
                    context@,
                    names_view(visited@),
                ).1,
                start == needs_view(old(variables)@),
                v0 == names_view(old(visited)@),
            decreases nodes@.len() - i,
        {
            let ghost rest = ms.subrange(i as int, ms.len() as int);
            let ghost vi = names_view(visited@);
            let ghost before = needs_view(variables@);
            proof {
                assert(rest.subrange(1, rest.len() as int) =~= ms.subrange(i + 1, ms.len() as int));
                broadcast use vstd::std_specs::vec::axiom_vec_index_decreases;
                assert(decreases_to!(*nodes => nodes[i as int]));
            }
            self.collect_inclusion_variables(&nodes[i], variables, context, visited);
            proof {
                let v1 = names_view(visited@);
                lemma_unvisited_mono(reg, vi, v1);
                assert(kept(v0, v1)) by {
                    assert forall|x: Seq<char>| v0.contains(x) implies #[trigger] v1.contains(x) by {
                        assert(vi.contains(x));
                    }
                }
                let first = incl_needs(reg, rest[0], context@, vi).0;
                let r2 = incl_seq(reg, ms.subrange(i + 1, ms.len() as int), context@, v1);
                lemma_merge_concat(before, first, r2.0);
            }
            i = i + 1;
        }
        proof {
            assert(ms.subrange(i as int, ms.len() as int) =~= Seq::<Node>::empty());
        }
    }

    /// The variables, with the type their use needs, that the template named
    /// `name` still requires given `context`: its own (see `direct_needs`), then
    /// those of the templates it reaches by inclusion, each name once with the
    /// type of its first requirement, sorted by name. Empty for an unknown name.
    pub fn context(&self, name: &str, context: &Context) -> (r: Vec<(String, VariableTy)>)
        ensures
            match find_template(self.registry(), name@) {
                None => r@.len() == 0,
                Some(t) => sorted_firsts(needs_view(r@), all_needs(self.registry(), t, context@)),
            },
    {
        let key = owned(name);
        let template = match self.lookup(&key) {
            Some(t) => t,
            None => return Vec::new(),
        };
        let mut variables: Vec<(String, VariableTy)> = Vec::new();
        let mut visited: Vec<String> = Vec::new();
        proof {
            assert(needs_view(variables@) =~= Seq::<Need>::empty());
            assert(names_view(visited@) =~= Seq::<Seq<char>>::empty());
        }
        template.collect_variables(&mut variables, context);
        self.collect_inclusion_variables(template.ast(), &mut variables, context, &mut visited);
        proof {
            let d = direct_needs(template.tree(), context@, Seq::empty());
            let m = incl_needs(self.registry(), template.tree(), context@, Seq::empty()).0;
            lemma_merge_concat(Seq::empty(), d, m);
            lemma_merge_first_type(Seq::empty(), all_needs(self.registry(), template.tree(), context@));
        }
        let r = sort_needs(&variables);
        proof {
            let all = all_needs(self.registry(), template.tree(), context@);
            let found = needs_view(variables@);
            assert(Seq::<Need>::empty() + all =~= all);
            assert(found == merge(Seq::empty(), all));
            assert forall|n: Seq<char>| #[trigger] first_type(found, n) == first_type(all, n) by {
                assert(first_type(merge(Seq::empty(), all), n) == first_type(Seq::<Need>::empty() + all, n));
            }
            let rv = needs_view(r@);
            assert forall|i: int| 0 <= i < rv.len() implies first_type(all, rv[i].0) == Some(rv[i].1) by {
                assert(first_type(found, rv[i].0) == Some(rv[i].1));
            }
            assert forall|name: Seq<char>| #[trigger] first_type(all, name) is Some implies exists|i: int|
                0 <= i < rv.len() && rv[i].0 == name by {
                assert(first_type(found, name) is Some);
            }
        }
        r
    }
}

impl Default for MinilateEngine {
    fn default() -> (r: Self)
        ensures
            r.registry() == Seq::<(Seq<char>, Node)>::empty(),
    {
        MinilateEngine::new()
    }
}

impl MinilateInterface for MinilateEngine {
    fn add_template(&mut self, name: &str, content: &str) -> Result<(), MinilateError> {
        MinilateEngine::add_template(self, name, content)
    }

    fn render(&self, template_name: &str, context: Option<&Context>) -> Result<String, MinilateError> {
        MinilateEngine::render(self, template_name, context)
    }

    fn context(&self, template_name: &str, context: &Context) -> Vec<(String, VariableTy)> {
        MinilateEngine::context(self, template_name, context)
    }
}

} // verus!
