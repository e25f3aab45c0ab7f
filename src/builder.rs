use vstd::prelude::*;
use vstd::string::*;
use crate::component::Component;
use crate::functions::{same_statements, Function, Statement};
use crate::ids::{is_hex_id, random_hex_id};
use crate::parser::{pnodes_view, statements_view, ComponentDeclaration, PNodeV};
use crate::parser::Node as ParsedNode;
use crate::text::{decimal, push_index};
use crate::tree::{properties_view, EventListener, EventType, Node, Tag};
use crate::value::{ExprV, Value, ValueV};

verus! {

/// The id of the tag numbered `k` in depth-first order, under a per-component prefix.
pub open spec fn tag_id(prefix: Seq<char>, k: int) -> Seq<char> {
    prefix + "_"@ + decimal(k)
}

/// A tag prefix: an underscore and 32 hexadecimal digits.
pub open spec fn is_tag_prefix(p: Seq<char>) -> bool {
    p.len() == 33 && p[0] == '_' && is_hex_id(p.skip(1))
}

/// Whether an attribute list marks a click listener.
pub open spec fn has_click(ps: Seq<(Seq<char>, Seq<char>)>) -> bool {
    exists|i: int| 0 <= i < ps.len() && ps[i].0 == "click"@
}

/// Number of tags in a parsed node.
pub open spec fn tag_count(n: PNodeV) -> int
    decreases n,
{
    match n {
        PNodeV::Tag(t) => 1 + tags_count(t.children),
        _ => 0,
    }
}

pub open spec fn tags_count(ns: Seq<PNodeV>) -> int
    decreases ns,
{
    if ns.len() == 0 {
        0
    } else {
        tags_count(ns.drop_last()) + tag_count(ns.last())
    }
}

/// The listeners a tag gets: one click listener running `handler` when the tag
/// has a click attribute, none otherwise.
pub open spec fn listeners_for(ls: Seq<EventListener>, props: Seq<(Seq<char>, Seq<char>)>, handler: Seq<Statement>) -> bool {
    if has_click(props) {
        ls.len() == 1 && ls[0].event_type == EventType::Click && same_statements(ls[0].listener.statements@, handler)
    } else {
        ls.len() == 0
    }
}

/// `n` is the render node built from `pn`, its tags numbered from `k`.
pub open spec fn builds(n: Node, pn: PNodeV, prefix: Seq<char>, k: int, handler: Seq<Statement>) -> bool
    decreases pn,
{
    match pn {
        PNodeV::Tag(tv) => match n {
            Node::Tag(t) => {
                &&& t.id@ == tag_id(prefix, k)
                &&& t.name@ == tv.name
                &&& properties_view(t.properties@) == tv.properties
                &&& listeners_for(t.listeners@, tv.properties, handler)
                &&& builds_all(t.children@, tv.children, prefix, k + 1, handler)
            },
            _ => false,
        },
        PNodeV::Expression(e) => n matches Node::Expression(x) && x@ == e,
        PNodeV::Text(s) => n matches Node::Text(x) && x@ == s,
        PNodeV::Empty => n matches Node::Empty,
    }
}

/// Each of `ns` is built from the matching one of `pns`, tags numbered on from `k`.
pub open spec fn builds_all(ns: Seq<Node>, pns: Seq<PNodeV>, prefix: Seq<char>, k: int, handler: Seq<Statement>) -> bool
    decreases pns,
{
    if pns.len() == 0 {
        ns.len() == 0
    } else {
        &&& ns.len() == pns.len()
        &&& builds_all(ns.drop_last(), pns.drop_last(), prefix, k, handler)
        &&& builds(ns.last(), pns.last(), prefix, k + tags_count(pns.drop_last()), handler)
    }
}

pub proof fn lemma_tag_count_nonneg(n: PNodeV)
    ensures
        tag_count(n) >= 0,
    decreases n,
{
    if let PNodeV::Tag(t) = n {
        lemma_tags_count_nonneg(t.children);
    }
}

pub proof fn lemma_tags_count_nonneg(ns: Seq<PNodeV>)
    ensures
        tags_count(ns) >= 0,
    decreases ns,
{
    if ns.len() > 0 {
        lemma_tags_count_nonneg(ns.drop_last());
        lemma_tag_count_nonneg(ns.last());
    }
}

/// Initial state: each declared name with the value of its literal (state
/// declarations are parsed as literal assignments; any other expression gives
/// empty text); a later declaration of a name replaces the earlier value in place.
pub open spec fn state_of(stmts: Seq<(Seq<char>, ExprV)>) -> Seq<(Seq<char>, ValueV)>
    decreases stmts.len(),
{
    if stmts.len() == 0 {
        Seq::empty()
    } else {
        let front = state_of(stmts.drop_last());
        let key = stmts.last().0;
        let value = match stmts.last().1 {
            ExprV::Literal(v) => v,
            _ => ValueV::Str(Seq::empty()),
        };
        if exists|i: int| 0 <= i < front.len() && front[i].0 == key {
            let i = choose|i: int|
                0 <= i < front.len() && front[i].0 == key && forall|m: int| 0 <= m < i ==> front[m].0 != key;
            front.update(i, (key, value))
        } else {
            front.push((key, value))
        }
    }
}

fn make_tag_id(prefix: &String, k: usize) -> (r: String)
    ensures
        r@ == tag_id(prefix@, k as int),
{
    let mut id = String::new();
    id.append(prefix.as_str());
    id.append("_");
    push_index(&mut id, k);
    id
}

fn has_click_exec(ps: &Vec<(String, String)>) -> (r: bool)
    ensures
        r == has_click(properties_view(ps@)),
{
    let click = String::from_str("click");
    let mut i: usize = 0;
    while i < ps.len()
        invariant
            0 <= i <= ps.len(),
            click@ == "click"@,
            forall|k: int| 0 <= k < i ==> properties_view(ps@)[k].0 != "click"@,
        decreases ps.len() - i,
    {
        if ps[i].0 == click {
            assert(properties_view(ps@)[i as int].0 == "click"@);
            return true;
        }
        i = i + 1;
    }
    false
}

fn copy_properties(ps: &Vec<(String, String)>) -> (r: Vec<(String, String)>)
    ensures
        properties_view(r@) == properties_view(ps@),
{
    let mut out: Vec<(String, String)> = Vec::new();
    let mut i: usize = 0;
    while i < ps.len()
        invariant
            0 <= i <= ps.len(),
            properties_view(out@) == properties_view(ps@).take(i as int),
        decreases ps.len() - i,
    {
        let ghost before = out@;
        out.push((ps[i].0.clone(), ps[i].1.clone()));
        proof {
            assert(properties_view(out@) =~= properties_view(before).push((ps@[i as int].0@, ps@[i as int].1@)));
            assert(properties_view(out@) =~= properties_view(ps@).take(i as int + 1));
        }
        i = i + 1;
    }
    proof {
        assert(properties_view(ps@).take(ps.len() as int) =~= properties_view(ps@));
    }
    out
}

fn copy_statements(stmts: &Vec<Statement>) -> (r: Vec<Statement>)
    ensures
        same_statements(r@, stmts@),
{
    let mut out: Vec<Statement> = Vec::new();
    let mut i: usize = 0;
    while i < stmts.len()
        invariant
            0 <= i <= stmts.len(),
            out@.len() == i,
            forall|k: int| 0 <= k < i ==> #[trigger] crate::functions::statement_js(out@[k]) == crate::functions::statement_js(stmts@[k]),
        decreases stmts.len() - i,
    {
        out.push(stmts[i].copy());
        i = i + 1;
    }
    out
}

/// Builds the render node of a parsed node, numbering its tags from `k`.
fn build_node(pn: &ParsedNode, prefix: &String, k: usize, handler: &Vec<Statement>) -> (r: (Node, usize))
    requires
        k + tag_count(pn@) <= usize::MAX,
    ensures
        builds(r.0, pn@, prefix@, k as int, handler@),
        r.1 == k + tag_count(pn@),
    decreases pn,
{
    match pn {
        ParsedNode::Tag(t) => {
            let cs = &t.children;
            proof {
                assert forall|j: int| 0 <= j < cs@.len() implies decreases_to!(*pn => #[trigger] cs@[j]) by {
                    assert(decreases_to!(*pn => (*pn)->Tag_0));
                    assert(decreases_to!(*t => t.children));
                    assert(decreases_to!(*cs => cs@));
                    assert(decreases_to!(cs@ => cs@[j]));
                }
                crate::parser::lemma_pnodes_view_len(cs@);
                lemma_tags_count_nonneg(pnodes_view(cs@));
            }
            let ghost pcs = pnodes_view(cs@);
            let mut children: Vec<Node> = Vec::new();
            let mut next = k + 1;
            let mut i: usize = 0;
            while i < cs.len()
                invariant
                    0 <= i <= cs.len(),
                    pcs == pnodes_view(cs@),
                    pcs.len() == cs@.len(),
                    forall|j: int| 0 <= j < cs@.len() ==> #[trigger] pcs[j] == cs@[j]@,
                    forall|j: int| 0 <= j < cs@.len() ==> decreases_to!(*pn => #[trigger] cs@[j]),
                    k + 1 + tags_count(pcs) <= usize::MAX,
                    next == k + 1 + tags_count(pcs.take(i as int)),
                    builds_all(children@, pcs.take(i as int), prefix@, k + 1, handler@),
                decreases cs.len() - i,
            {
                proof {
                    assert(pcs.take(i as int + 1).drop_last() == pcs.take(i as int));
                    assert(pcs.take(i as int + 1).last() == cs@[i as int]@);
                    lemma_tags_count_prefix(pcs, i as int + 1);
                    lemma_tag_count_nonneg(cs@[i as int]@);
                }
                let (c, after) = build_node(&cs[i], prefix, next, handler);
                let ghost before = children@;
                children.push(c);
                proof {
                    assert(children@.drop_last() == before);
                }
                next = after;
                i = i + 1;
            }
            proof {
                assert(pcs.take(cs.len() as int) == pcs);
            }
            let mut tag = Tag::new(make_tag_id(prefix, k), t.name.clone(), children);
            tag.properties = copy_properties(&t.properties);
            if has_click_exec(&t.properties) {
                tag = tag.listener(EventType::Click, Function::new(copy_statements(handler)));
            }
            (Node::Tag(tag), next)
        },
        ParsedNode::Expression(e) => (Node::Expression(e.copy()), k),
        ParsedNode::Text(s) => (Node::Text(s.clone()), k),
        ParsedNode::Empty => (Node::Empty, k),
    }
}

pub proof fn lemma_tags_count_prefix(ns: Seq<PNodeV>, i: int)
    requires
        0 <= i <= ns.len(),
    ensures
        tags_count(ns.take(i)) <= tags_count(ns),
        tags_count(ns.take(i)) >= 0,
    decreases ns.len() - i,
{
    lemma_tags_count_nonneg(ns.take(i));
    if i < ns.len() {
        lemma_tags_count_prefix(ns, i + 1);
        assert(ns.take(i + 1).drop_last() == ns.take(i));
        lemma_tag_count_nonneg(ns[i]);
    } else {
        assert(ns.take(i) == ns);
    }
}

/// Position of the first entry named `key`, if any.
fn find_state(state: &Vec<(String, Value)>, key: &String) -> (r: Option<usize>)
    ensures
        match r {
            Some(j) => j < state@.len() && crate::value::context_view(state@)[j as int].0 == key@
                && forall|m: int| 0 <= m < j ==> crate::value::context_view(state@)[m].0 != key@,
            None => forall|m: int| 0 <= m < state@.len() ==> crate::value::context_view(state@)[m].0 != key@,
        },
{
    let mut i: usize = 0;
    while i < state.len()
        invariant
            0 <= i <= state.len(),
            forall|m: int| 0 <= m < i ==> crate::value::context_view(state@)[m].0 != key@,
        decreases state.len() - i,
    {
        if state[i].0 == *key {
            return Some(i);
        }
        i = i + 1;
    }
    None
}

/// The initial state declared by statements (see `state_of`).
fn initial_state(stmts: &Vec<Statement>) -> (r: Vec<(String, Value)>)
    ensures
        crate::value::context_view(r@) == state_of(statements_view(stmts@)),
{
    let ghost sv = statements_view(stmts@);
    let mut state: Vec<(String, Value)> = Vec::new();
    let mut i: usize = 0;
    proof {
        assert(crate::value::context_view(state@) =~= state_of(sv.take(0)));
    }
    while i < stmts.len()
        invariant
            0 <= i <= stmts.len(),
            sv == statements_view(stmts@),
            crate::value::context_view(state@) == state_of(sv.take(i as int)),
        decreases stmts.len() - i,
    {
        let ghost front = crate::value::context_view(state@);
        proof {
            assert(sv.take(i as int + 1).drop_last() == sv.take(i as int));
            assert(sv.take(i as int + 1).last() == sv[i as int]);
        }
        let (key, value) = match &stmts[i] {
            Statement::Assignment(k, e) => (k.clone(), match e {
                crate::value::Expression::Literal(v) => v.copy(),
                _ => Value::String(String::new()),
            }),
        };
        match find_state(&state, &key) {
            Some(j) => {
                proof {
                    let c = choose|m: int|
                        0 <= m < front.len() && front[m].0 == key@ && forall|n: int| 0 <= n < m ==> front[n].0 != key@;
                    assert(front[j as int].0 == key@);
                    if c < j {
                        assert(front[c].0 != key@);
                    }
                    if j < c {
                        assert(front[j as int].0 != key@);
                    }
                }
                let ghost k0 = key@;
                let ghost v0 = value@;
                state.set(j, (key, value));
                proof {
                    assert(crate::value::context_view(state@) =~= front.update(j as int, (k0, v0)));
                }
            },
            None => {
                let ghost k0 = key@;
                let ghost v0 = value@;
                state.push((key, value));
                proof {
                    assert(crate::value::context_view(state@) =~= front.push((k0, v0)));
                }
            },
        }
        i = i + 1;
    }
    proof {
        assert(sv.take(stmts.len() as int) == sv);
    }
    state
}

/// Number of tags in a parsed node, when it is below `usize::MAX`.
pub fn count_tags(pn: &ParsedNode) -> (r: Option<usize>)
    ensures
        match r {
            Some(n) => n as int == tag_count(pn@) && n < usize::MAX,
            None => tag_count(pn@) >= usize::MAX,
        },
    decreases pn,
{
    match pn {
        ParsedNode::Tag(t) => {
            let cs = &t.children;
            proof {
                assert forall|j: int| 0 <= j < cs@.len() implies decreases_to!(*pn => #[trigger] cs@[j]) by {
                    assert(decreases_to!(*pn => (*pn)->Tag_0));
                    assert(decreases_to!(*t => t.children));
                    assert(decreases_to!(*cs => cs@));
                    assert(decreases_to!(cs@ => cs@[j]));
                }
                crate::parser::lemma_pnodes_view_len(cs@);
            }
            let ghost pcs = pnodes_view(cs@);
            assert(tag_count(pn@) == 1 + tags_count(pcs));
            let mut total: usize = 1;
            let mut i: usize = 0;
            while i < cs.len()
                invariant
                    0 <= i <= cs.len(),
                    pcs == pnodes_view(cs@),
                    pcs.len() == cs@.len(),
                    forall|j: int| 0 <= j < cs@.len() ==> #[trigger] pcs[j] == cs@[j]@,
                    forall|j: int| 0 <= j < cs@.len() ==> decreases_to!(*pn => #[trigger] cs@[j]),
                    total == 1 + tags_count(pcs.take(i as int)),
                    total < usize::MAX,
                    tag_count(pn@) == 1 + tags_count(pcs),
                decreases cs.len() - i,
            {
                proof {
                    assert(pcs.take(i as int + 1).drop_last() == pcs.take(i as int));
                    assert(pcs.take(i as int + 1).last() == cs@[i as int]@);
                    assert(tags_count(pcs.take(i as int + 1)) == tags_count(pcs.take(i as int)) + tag_count(cs@[i as int]@));
                }
                match count_tags(&cs[i]) {
                    Some(n) => {
                        if n >= usize::MAX - total {
                            proof {
                                lemma_tags_count_prefix(pcs, i as int + 1);
                            }
                            return None;
                        }
                        total = total + n;
                    },
                    None => {
                        proof {
                            lemma_tags_count_prefix(pcs, i as int + 1);
                            lemma_tags_count_nonneg(pcs.take(i as int));
                        }
                        return None;
                    },
                }
                i = i + 1;
            }
            proof {
                assert(pcs.take(cs.len() as int) == pcs);
            }
            Some(total)
        },
        _ => Some(0),
    }
}

/// The component of a declaration: a fresh tag prefix numbers its tags in
/// depth-first order, each tag with a click attribute gets the declaration's
/// statements as its click handler, and the state declarations give the initial
/// state.
pub fn build_component(decl: &ComponentDeclaration) -> (r: Component)
    requires
        tag_count(decl.tree@) < usize::MAX,
    ensures
        r.stateful,
        r.well_formed(),
        crate::component::is_component_id(r.id@),
        crate::value::context_view(r.state@) == state_of(statements_view(decl.statements@)),
        exists|p: Seq<char>| is_tag_prefix(p) && builds(r.tree, decl.tree@, p, 0, decl.statements@),
{
    let mut prefix = String::new();
    prefix.append("_");
    let hex = random_hex_id();
    prefix.append(hex.as_str());
    proof {
        reveal_strlit("_");
        assert(prefix@.skip(1) =~= hex@);
    }
    let (tree, _) = build_node(&decl.tree, &prefix, 0, &decl.statements);
    let state = initial_state(&decl.statements);
    let c = Component::new(state, tree);
    proof {
        assert(is_tag_prefix(prefix@));
    }
    c
}

/// The component of a declaration (see `build_component`), or `None` when its
/// tags cannot be numbered within `usize`.
pub fn compile_component(decl: &ComponentDeclaration) -> (r: Option<Component>)
    ensures
        match r {
            Some(c) => tag_count(decl.tree@) < usize::MAX && c.stateful && c.well_formed()
                && crate::component::is_component_id(c.id@)
                && crate::value::context_view(c.state@) == state_of(statements_view(decl.statements@))
                && exists|p: Seq<char>| is_tag_prefix(p) && builds(c.tree, decl.tree@, p, 0, decl.statements@),
            None => tag_count(decl.tree@) >= usize::MAX,
        },
{
    match count_tags(&decl.tree) {
        Some(_) => Some(build_component(decl)),
        None => None,
    }
}

} // verus!
