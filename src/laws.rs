use vstd::prelude::*;
use crate::builder::{builds, builds_all, has_click, lemma_tag_count_nonneg, lemma_tags_count_nonneg, tag_count, tag_id, tags_count};
use crate::functions::Statement;
use crate::parser::PNodeV;
use crate::text::{digits, lemma_digits_injective};
use crate::tree::Node;

verus! {

/// Ids of the tags of a tree, in depth-first order.
pub open spec fn tag_ids(n: Node) -> Seq<Seq<char>>
    decreases n,
{
    match n {
        Node::Tag(t) => seq![t.id@] + nodes_tag_ids(t.children@),
        Node::Fragment(cs) => nodes_tag_ids(cs@),
        _ => Seq::empty(),
    }
}

pub open spec fn nodes_tag_ids(ns: Seq<Node>) -> Seq<Seq<char>>
    decreases ns,
{
    if ns.len() == 0 {
        Seq::empty()
    } else {
        nodes_tag_ids(ns.drop_last()) + tag_ids(ns.last())
    }
}

/// The ids numbered `k` to `k + count - 1` under a prefix.
pub open spec fn numbered_ids(prefix: Seq<char>, k: int, count: int) -> Seq<Seq<char>> {
    Seq::new(count as nat, |j: int| tag_id(prefix, k + j))
}

proof fn lemma_builds_ids(n: Node, pn: PNodeV, prefix: Seq<char>, k: int, h: Seq<Statement>)
    requires
        builds(n, pn, prefix, k, h),
    ensures
        tag_ids(n) == numbered_ids(prefix, k, tag_count(pn)),
    decreases pn,
{
    lemma_tag_count_nonneg(pn);
    match pn {
        PNodeV::Tag(tv) => {
            let t = n->Tag_0;
            lemma_builds_all_ids(t.children@, tv.children, prefix, k + 1, h);
            lemma_tags_count_nonneg(tv.children);
            assert(tag_ids(n) =~= numbered_ids(prefix, k, tag_count(pn)));
        },
        _ => {
            assert(tag_ids(n) =~= numbered_ids(prefix, k, tag_count(pn)));
        },
    }
}

proof fn lemma_builds_all_ids(ns: Seq<Node>, pns: Seq<PNodeV>, prefix: Seq<char>, k: int, h: Seq<Statement>)
    requires
        builds_all(ns, pns, prefix, k, h),
    ensures
        nodes_tag_ids(ns) == numbered_ids(prefix, k, tags_count(pns)),
    decreases pns,
{
    lemma_tags_count_nonneg(pns);
    if pns.len() == 0 {
        assert(nodes_tag_ids(ns) =~= numbered_ids(prefix, k, tags_count(pns)));
    } else {
        let a = tags_count(pns.drop_last());
        lemma_builds_all_ids(ns.drop_last(), pns.drop_last(), prefix, k, h);
        lemma_builds_ids(ns.last(), pns.last(), prefix, k + a, h);
        lemma_tags_count_nonneg(pns.drop_last());
        lemma_tag_count_nonneg(pns.last());
        assert(nodes_tag_ids(ns) =~= numbered_ids(prefix, k, tags_count(pns)));
    }
}

proof fn lemma_tag_id_injective(prefix: Seq<char>, a: int, b: int)
    requires
        0 <= a,
        0 <= b,
        tag_id(prefix, a) == tag_id(prefix, b),
    ensures
        a == b,
{
    reveal_strlit("_");
    let n: int = prefix.len() as int + 1;
    assert(crate::text::decimal(a) == digits(a as nat));
    assert(crate::text::decimal(b) == digits(b as nat));
    assert(tag_id(prefix, a).skip(n) =~= digits(a as nat));
    assert(tag_id(prefix, b).skip(n) =~= digits(b as nat));
    lemma_digits_injective(a as nat, b as nat);
}

/// Every tag of a tree built from a parsed template carries an id of its own:
/// the ids are pairwise distinct, one per declared tag.
pub proof fn law_built_tag_ids_unique(n: Node, pn: PNodeV, prefix: Seq<char>, handler: Seq<Statement>)
    requires
        builds(n, pn, prefix, 0, handler),
    ensures
        tag_ids(n).len() == tag_count(pn),
        tag_ids(n).no_duplicates(),
{
    lemma_builds_ids(n, pn, prefix, 0, handler);
    lemma_tag_count_nonneg(pn);
    let ids = tag_ids(n);
    assert forall|i: int, j: int| 0 <= i < ids.len() && 0 <= j < ids.len() && i != j implies ids[i] != ids[j] by {
        if ids[i] == ids[j] {
            lemma_tag_id_injective(prefix, i, j);
        }
    }
}

/// Number of tags with a click attribute.
pub open spec fn click_count(n: PNodeV) -> int
    decreases n,
{
    match n {
        PNodeV::Tag(t) => (if has_click(t.properties) { 1int } else { 0int }) + clicks_count(t.children),
        _ => 0,
    }
}

pub open spec fn clicks_count(ns: Seq<PNodeV>) -> int
    decreases ns,
{
    if ns.len() == 0 {
        0
    } else {
        clicks_count(ns.drop_last()) + click_count(ns.last())
    }
}

/// Number of mustache expressions that stand inside a tag; `inside` says whether
/// `n` itself has an enclosing tag.
pub open spec fn mustache_count(n: PNodeV, inside: bool) -> int
    decreases n,
{
    match n {
        PNodeV::Tag(t) => mustaches_count(t.children),
        PNodeV::Expression(_) => if inside { 1 } else { 0 },
        _ => 0,
    }
}

pub open spec fn mustaches_count(ns: Seq<PNodeV>) -> int
    decreases ns,
{
    if ns.len() == 0 {
        0
    } else {
        mustaches_count(ns.drop_last()) + mustache_count(ns.last(), true)
    }
}

proof fn lemma_builds_listener_count(n: Node, pn: PNodeV, prefix: Seq<char>, k: int, h: Seq<Statement>)
    requires
        builds(n, pn, prefix, k, h),
    ensures
        crate::tree::listener_entries(n).len() == click_count(pn),
    decreases pn,
{
    if let PNodeV::Tag(tv) = pn {
        let t = n->Tag_0;
        lemma_builds_all_listener_count(t.children@, tv.children, prefix, k + 1, h);
    }
}

proof fn lemma_builds_all_listener_count(ns: Seq<Node>, pns: Seq<PNodeV>, prefix: Seq<char>, k: int, h: Seq<Statement>)
    requires
        builds_all(ns, pns, prefix, k, h),
    ensures
        crate::tree::nodes_listener_entries(ns).len() == clicks_count(pns),
    decreases pns,
{
    if pns.len() > 0 {
        lemma_builds_all_listener_count(ns.drop_last(), pns.drop_last(), prefix, k, h);
        lemma_builds_listener_count(ns.last(), pns.last(), prefix, k + tags_count(pns.drop_last()), h);
    }
}

proof fn lemma_builds_expr_count(n: Node, pn: PNodeV, prefix: Seq<char>, k: int, h: Seq<Statement>, parent: Option<(Seq<char>, int)>)
    requires
        builds(n, pn, prefix, k, h),
    ensures
        crate::tree::expr_entries(n, parent).len() == mustache_count(pn, parent is Some),
    decreases pn,
{
    if let PNodeV::Tag(tv) = pn {
        let t = n->Tag_0;
        lemma_builds_all_expr_count(t.children@, tv.children, prefix, k + 1, h, t.id@);
    }
}

proof fn lemma_builds_all_expr_count(ns: Seq<Node>, pns: Seq<PNodeV>, prefix: Seq<char>, k: int, h: Seq<Statement>, id: Seq<char>)
    requires
        builds_all(ns, pns, prefix, k, h),
    ensures
        crate::tree::children_expr_entries(ns, id).len() == mustaches_count(pns),
    decreases pns,
{
    if pns.len() > 0 {
        lemma_builds_all_expr_count(ns.drop_last(), pns.drop_last(), prefix, k, h, id);
        lemma_builds_expr_count(ns.last(), pns.last(), prefix, k + tags_count(pns.drop_last()), h, Some((id, ns.len() - 1)));
    }
}

proof fn lemma_contains_concat<A>(a: Seq<A>, b: Seq<A>, x: A)
    ensures
        (a + b).contains(x) <==> a.contains(x) || b.contains(x),
{
    if a.contains(x) {
        let i = choose|i: int| 0 <= i < a.len() && a[i] == x;
        assert((a + b)[i] == x);
    }
    if b.contains(x) {
        let i = choose|i: int| 0 <= i < b.len() && b[i] == x;
        assert((a + b)[a.len() + i] == x);
    }
    if (a + b).contains(x) {
        let i = choose|i: int| 0 <= i < (a + b).len() && (a + b)[i] == x;
        if i < a.len() {
            assert(a[i] == x);
        } else {
            assert(b[i - a.len()] == x);
        }
    }
}

/// Whether an entry names a tag of `ids` or the enclosing tag.
pub open spec fn names_known_tag(x: Seq<char>, ids: Seq<Seq<char>>, parent: Option<(Seq<char>, int)>) -> bool {
    ids.contains(x) || (parent is Some && x == (parent->0).0)
}

proof fn lemma_expr_entry_ids(n: Node, parent: Option<(Seq<char>, int)>)
    ensures
        forall|i: int| 0 <= i < crate::tree::expr_entries(n, parent).len()
            ==> names_known_tag(#[trigger] crate::tree::expr_entries(n, parent)[i].0, tag_ids(n), parent),
    decreases n,
{
    match n {
        Node::Tag(t) => {
            lemma_children_expr_entry_ids(t.children@, t.id@);
            let es = crate::tree::expr_entries(n, parent);
            let ce = crate::tree::children_expr_entries(t.children@, t.id@);
            assert(es == ce);
            assert(tag_ids(n) == seq![t.id@] + nodes_tag_ids(t.children@));
            assert forall|i: int| 0 <= i < es.len() implies names_known_tag(#[trigger] es[i].0, tag_ids(n), parent) by {
                lemma_contains_concat(seq![t.id@], nodes_tag_ids(t.children@), es[i].0);
                assert(ce[i] == es[i]);
                if es[i].0 == t.id@ {
                    assert(seq![t.id@][0] == t.id@);
                    assert(seq![t.id@].contains(t.id@));
                }
            }
        },
        Node::Fragment(cs) => {
            lemma_fragment_expr_entry_ids(cs@, parent);
            assert(crate::tree::expr_entries(n, parent) == crate::tree::fragment_expr_entries(cs@, parent));
            assert(tag_ids(n) == nodes_tag_ids(cs@));
        },
        Node::Expression(e) => {
            let es = crate::tree::expr_entries(n, parent);
            assert forall|i: int| 0 <= i < es.len() implies names_known_tag(#[trigger] es[i].0, tag_ids(n), parent) by {
                assert(parent is Some);
                assert(es[i].0 == (parent->0).0);
            }
        },
        _ => {},
    }
}

proof fn lemma_children_expr_entry_ids(cs: Seq<Node>, id: Seq<char>)
    ensures
        forall|i: int| 0 <= i < crate::tree::children_expr_entries(cs, id).len()
            ==> nodes_tag_ids(cs).contains(#[trigger] crate::tree::children_expr_entries(cs, id)[i].0)
                || crate::tree::children_expr_entries(cs, id)[i].0 == id,
    decreases cs,
{
    if cs.len() > 0 {
        let front = crate::tree::children_expr_entries(cs.drop_last(), id);
        let parent = Some((id, cs.len() - 1));
        let back = crate::tree::expr_entries(cs.last(), parent);
        lemma_children_expr_entry_ids(cs.drop_last(), id);
        lemma_expr_entry_ids(cs.last(), parent);
        let es = crate::tree::children_expr_entries(cs, id);
        assert(es == front + back);
        assert forall|i: int| 0 <= i < es.len() implies nodes_tag_ids(cs).contains(#[trigger] es[i].0) || es[i].0 == id by {
            lemma_contains_concat(nodes_tag_ids(cs.drop_last()), tag_ids(cs.last()), es[i].0);
            if i < front.len() {
                assert(es[i] == front[i]);
            } else {
                assert(es[i] == back[i - front.len()]);
            }
        }
    }
}

proof fn lemma_fragment_expr_entry_ids(cs: Seq<Node>, parent: Option<(Seq<char>, int)>)
    ensures
        forall|i: int| 0 <= i < crate::tree::fragment_expr_entries(cs, parent).len()
            ==> names_known_tag(#[trigger] crate::tree::fragment_expr_entries(cs, parent)[i].0, nodes_tag_ids(cs), parent),
    decreases cs,
{
    if cs.len() > 0 {
        let front = crate::tree::fragment_expr_entries(cs.drop_last(), parent);
        let back = crate::tree::expr_entries(cs.last(), parent);
        lemma_fragment_expr_entry_ids(cs.drop_last(), parent);
        lemma_expr_entry_ids(cs.last(), parent);
        let es = crate::tree::fragment_expr_entries(cs, parent);
        assert(es == front + back);
        assert forall|i: int| 0 <= i < es.len() implies names_known_tag(#[trigger] es[i].0, nodes_tag_ids(cs), parent) by {
            lemma_contains_concat(nodes_tag_ids(cs.drop_last()), tag_ids(cs.last()), es[i].0);
            if i < front.len() {
                assert(es[i] == front[i]);
            } else {
                assert(es[i] == back[i - front.len()]);
            }
        }
    }
}

proof fn lemma_listener_entry_ids(n: Node)
    ensures
        forall|i: int| 0 <= i < crate::tree::listener_entries(n).len()
            ==> tag_ids(n).contains(#[trigger] crate::tree::listener_entries(n)[i].0),
    decreases n,
{
    match n {
        Node::Tag(t) => {
            lemma_nodes_listener_entry_ids(t.children@);
            let own = crate::tree::tag_listener_entries(t);
            let rest = crate::tree::nodes_listener_entries(t.children@);
            let es = crate::tree::listener_entries(n);
            assert(es == own + rest);
            assert(tag_ids(n) == seq![t.id@] + nodes_tag_ids(t.children@));
            assert forall|i: int| 0 <= i < es.len() implies tag_ids(n).contains(#[trigger] es[i].0) by {
                lemma_contains_concat(seq![t.id@], nodes_tag_ids(t.children@), es[i].0);
                if i < own.len() {
                    assert(es[i] == own[i]);
                    assert(own[i].0 == t.id@);
                    assert(seq![t.id@][0] == t.id@);
                    assert(seq![t.id@].contains(t.id@));
                } else {
                    assert(es[i] == rest[i - own.len()]);
                }
            }
        },
        Node::Fragment(cs) => {
            lemma_nodes_listener_entry_ids(cs@);
            assert(crate::tree::listener_entries(n) == crate::tree::nodes_listener_entries(cs@));
            assert(tag_ids(n) == nodes_tag_ids(cs@));
        },
        _ => {},
    }
}

proof fn lemma_nodes_listener_entry_ids(cs: Seq<Node>)
    ensures
        forall|i: int| 0 <= i < crate::tree::nodes_listener_entries(cs).len()
            ==> nodes_tag_ids(cs).contains(#[trigger] crate::tree::nodes_listener_entries(cs)[i].0),
    decreases cs,
{
    if cs.len() > 0 {
        let front = crate::tree::nodes_listener_entries(cs.drop_last());
        let back = crate::tree::listener_entries(cs.last());
        lemma_nodes_listener_entry_ids(cs.drop_last());
        lemma_listener_entry_ids(cs.last());
        let es = crate::tree::nodes_listener_entries(cs);
        assert forall|i: int| 0 <= i < es.len() implies nodes_tag_ids(cs).contains(#[trigger] es[i].0) by {
            lemma_contains_concat(nodes_tag_ids(cs.drop_last()), tag_ids(cs.last()), es[i].0);
            if i < front.len() {
                assert(es[i] == front[i]);
            } else {
                assert(es[i] == back[i - front.len()]);
            }
        }
    }
}

/// For a component built from a parsed template with N click-attributed tags and
/// M mustache expressions, the listener list has N entries and the expression
/// list M, and each entry names a tag of the component's tree.
pub proof fn law_component_listeners_and_expressions(c: crate::component::Component, pn: PNodeV, prefix: Seq<char>, handler: Seq<Statement>)
    requires
        c.stateful,
        c.well_formed(),
        builds(c.tree, pn, prefix, 0, handler),
    ensures
        c.listeners@.len() == click_count(pn),
        c.exprs@.len() == mustache_count(pn, false),
        forall|i: int| 0 <= i < c.exprs@.len() ==> tag_ids(c.tree).contains(#[trigger] c.exprs@[i].0@),
        forall|i: int| 0 <= i < c.listeners@.len() ==> tag_ids(c.tree).contains(#[trigger] c.listeners@[i].0@),
{
    lemma_builds_listener_count(c.tree, pn, prefix, 0, handler);
    lemma_builds_expr_count(c.tree, pn, prefix, 0, handler, None);
    lemma_expr_entry_ids(c.tree, None);
    lemma_listener_entry_ids(c.tree);
    let ev = crate::tree::exprs_view(c.exprs@);
    let lv = crate::tree::listeners_view(c.listeners@);
    assert(ev.len() == c.exprs@.len());
    assert(lv.len() == c.listeners@.len());
    assert forall|i: int| 0 <= i < c.exprs@.len() implies tag_ids(c.tree).contains(#[trigger] c.exprs@[i].0@) by {
        assert(ev[i].0 == c.exprs@[i].0@);
    }
    assert forall|i: int| 0 <= i < c.listeners@.len() implies tag_ids(c.tree).contains(#[trigger] c.listeners@[i].0@) by {
        assert(lv[i].0 == c.listeners@[i].0@);
    }
}

/// Rendering is a function of the tree, the context and the instance id: two
/// renderings of the same inputs give the same markup and the same mount script.
pub proof fn law_render_deterministic(
    r1: Result<crate::render::Rendered, crate::value::EvalError>,
    r2: Result<crate::render::Rendered, crate::value::EvalError>,
    n: Node,
    ctx: Seq<(Seq<char>, crate::value::ValueV)>,
    inst: Option<Seq<char>>,
)
    requires
        crate::render::rendered_as(r1, crate::render::render_spec(n, ctx, inst)),
        crate::render::rendered_as(r2, crate::render::render_spec(n, ctx, inst)),
    ensures
        r1 is Ok <==> r2 is Ok,
        r1 is Ok ==> r1->Ok_0.html@ == r2->Ok_0.html@ && r1->Ok_0.script@ == r2->Ok_0.script@,
{
}

/// A parsed template without mustache expressions.
pub open spec fn is_static(n: PNodeV) -> bool
    decreases n,
{
    match n {
        PNodeV::Tag(t) => all_static(t.children),
        PNodeV::Expression(_) => false,
        _ => true,
    }
}

pub open spec fn all_static(ns: Seq<PNodeV>) -> bool
    decreases ns,
{
    ns.len() == 0 || (all_static(ns.drop_last()) && is_static(ns.last()))
}

/// Markup of an attribute list model.
pub open spec fn attrs_markup(ps: Seq<(Seq<char>, Seq<char>)>) -> Seq<char>
    decreases ps.len(),
{
    if ps.len() == 0 {
        Seq::empty()
    } else {
        attrs_markup(ps.drop_last()) + " "@ + ps.last().0 + "=\""@ + ps.last().1 + "\""@
    }
}

/// The markup that declares a static parsed template, its tags numbered from `k`
/// under `prefix`: each tag with its id, the instance attribute when inside an
/// instance, its attributes in order, and its children joined by newlines.
pub open spec fn declared_markup(n: PNodeV, prefix: Seq<char>, k: int, inst: Option<Seq<char>>) -> Seq<char>
    decreases n,
{
    match n {
        PNodeV::Tag(t) => "<"@ + t.name + " id=\""@ + tag_id(prefix, k) + "\""@ + crate::render::instance_attr(inst)
            + attrs_markup(t.properties) + ">"@ + children_markup(t.children, prefix, k + 1, inst) + "</"@ + t.name
            + ">"@,
        PNodeV::Text(s) => s,
        _ => Seq::empty(),
    }
}

pub open spec fn children_markup(ns: Seq<PNodeV>, prefix: Seq<char>, k: int, inst: Option<Seq<char>>) -> Seq<char>
    decreases ns,
{
    if ns.len() == 0 {
        Seq::empty()
    } else {
        let last = declared_markup(ns.last(), prefix, k + tags_count(ns.drop_last()), inst);
        if ns.len() == 1 {
            last
        } else {
            children_markup(ns.drop_last(), prefix, k, inst) + "\n"@ + last
        }
    }
}

proof fn lemma_attrs_markup(ps: Seq<(String, String)>)
    ensures
        crate::render::attrs_text(ps) == attrs_markup(crate::tree::properties_view(ps)),
    decreases ps.len(),
{
    if ps.len() > 0 {
        lemma_attrs_markup(ps.drop_last());
        assert(crate::tree::properties_view(ps.drop_last()) =~= crate::tree::properties_view(ps).drop_last());
    }
}

proof fn lemma_static_render(n: Node, pn: PNodeV, prefix: Seq<char>, k: int, h: Seq<Statement>, ctx: Seq<(Seq<char>, crate::value::ValueV)>, inst: Option<Seq<char>>)
    requires
        builds(n, pn, prefix, k, h),
        is_static(pn),
    ensures
        crate::render::render_spec(n, ctx, inst) == Ok::<(Seq<char>, Seq<char>), crate::value::EvalErrorV>((declared_markup(pn, prefix, k, inst), Seq::<char>::empty())),
    decreases pn,
{
    if let PNodeV::Tag(tv) = pn {
        let t = n->Tag_0;
        lemma_static_render_all(t.children@, tv.children, prefix, k + 1, h, ctx, inst);
        lemma_attrs_markup(t.properties@);
        let m = declared_markup(pn, prefix, k, inst);
        let r = crate::render::render_spec(n, ctx, inst);
        assert(r->Ok_0.0 =~= m);
    }
}

proof fn lemma_static_render_all(ns: Seq<Node>, pns: Seq<PNodeV>, prefix: Seq<char>, k: int, h: Seq<Statement>, ctx: Seq<(Seq<char>, crate::value::ValueV)>, inst: Option<Seq<char>>)
    requires
        builds_all(ns, pns, prefix, k, h),
        all_static(pns),
    ensures
        crate::render::render_all(ns, ctx, inst) == Ok::<(Seq<char>, Seq<char>), crate::value::EvalErrorV>((children_markup(pns, prefix, k, inst), Seq::<char>::empty())),
    decreases pns,
{
    if pns.len() > 0 {
        lemma_static_render_all(ns.drop_last(), pns.drop_last(), prefix, k, h, ctx, inst);
        lemma_static_render(ns.last(), pns.last(), prefix, k + tags_count(pns.drop_last()), h, ctx, inst);
        assert(Seq::<char>::empty() + Seq::<char>::empty() =~= Seq::<char>::empty());
    }
}

/// A component built from a static template renders exactly the declared
/// structure: its tags with their names, numbered ids and attributes in order,
/// its texts, and no mount script.
pub proof fn law_static_render_reproduces_template(c: crate::component::Component, pn: PNodeV, prefix: Seq<char>, handler: Seq<Statement>, inst: Option<Seq<char>>)
    requires
        builds(c.tree, pn, prefix, 0, handler),
        is_static(pn),
    ensures
        crate::render::render_spec(c.tree, crate::value::context_view(c.state@), inst)
            == Ok::<(Seq<char>, Seq<char>), crate::value::EvalErrorV>((declared_markup(pn, prefix, 0, inst), Seq::<char>::empty())),
{
    lemma_static_render(c.tree, pn, prefix, 0, handler, crate::value::context_view(c.state@), inst);
}

} // verus!
