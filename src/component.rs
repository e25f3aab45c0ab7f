use vstd::prelude::*;
use vstd::string::*;
use crate::ids::{is_hex_id, random_hex_id};
use crate::render::{render_node, render_spec, rendered_as, Rendered};
use crate::tree::{expr_entries, exprs_view, listener_entries, listeners_view, EventListener, Node};
use crate::value::{context_view, EvalError, Value};

verus! {

/// A compiled component: its initial state, its render tree, and what one
/// traversal of the tree found in it.
#[derive(Debug)]
pub struct Component {
    /// Class identifier, in a namespace of its own.
    pub id: String,
    /// Initial state, names unique.
    pub state: Vec<(String, Value)>,
    pub tree: Node,
    /// Ids of the tags the generated class holds handles to, each once.
    pub refs: Vec<String>,
    /// Owner tag id, child index and script text of each tracked expression.
    pub exprs: Vec<(String, usize, String)>,
    /// Owner tag id and listener of each declared listener.
    pub listeners: Vec<(String, EventListener)>,
    pub stateful: bool,
}

/// A component class identifier: a fixed prefix and 32 hexadecimal digits.
pub open spec fn is_component_id(s: Seq<char>) -> bool {
    s.len() == 41 && s.take(9) == "Soquette_"@ && is_hex_id(s.skip(9))
}

/// Model of a list of strings.
pub open spec fn strings_view(v: Seq<String>) -> Seq<Seq<char>> {
    v.map_values(|s: String| s@)
}

/// The ids in order of first occurrence, each once.
pub open spec fn unique_ids(ids: Seq<Seq<char>>) -> Seq<Seq<char>>
    decreases ids.len(),
{
    if ids.len() == 0 {
        Seq::empty()
    } else {
        let front = unique_ids(ids.drop_last());
        if front.contains(ids.last()) {
            front
        } else {
            front.push(ids.last())
        }
    }
}

/// The tags referred to by tracked expressions and listeners, each once.
pub open spec fn ref_ids(
    exprs: Seq<(Seq<char>, int, Seq<char>)>,
    listeners: Seq<(Seq<char>, crate::tree::EventType, Seq<char>)>,
) -> Seq<Seq<char>> {
    unique_ids(
        exprs.map_values(|e: (Seq<char>, int, Seq<char>)| e.0)
            + listeners.map_values(|l: (Seq<char>, crate::tree::EventType, Seq<char>)| l.0),
    )
}

impl Component {
    /// The harvested lists are those of the tree: all of them for a stateful
    /// component, none for a stateless one.
    pub open spec fn well_formed(&self) -> bool {
        if self.stateful {
            &&& exprs_view(self.exprs@) == expr_entries(self.tree, None)
            &&& listeners_view(self.listeners@) == listener_entries(self.tree)
            &&& strings_view(self.refs@) == ref_ids(exprs_view(self.exprs@), listeners_view(self.listeners@))
        } else {
            &&& self.state@.len() == 0
            &&& self.exprs@.len() == 0
            &&& self.listeners@.len() == 0
            &&& self.refs@.len() == 0
        }
    }
}

/// Whether `ids` holds `id`.
fn contains_id(ids: &Vec<String>, id: &String) -> (r: bool)
    ensures
        r == strings_view(ids@).contains(id@),
{
    let mut i: usize = 0;
    while i < ids.len()
        invariant
            0 <= i <= ids.len(),
            forall|k: int| 0 <= k < i ==> strings_view(ids@)[k] != id@,
        decreases ids.len() - i,
    {
        if ids[i] == *id {
            assert(strings_view(ids@)[i as int] == id@);
            return true;
        }
        i = i + 1;
    }
    false
}

/// The ids in order of first occurrence, each once.
fn unique(ids: &Vec<String>) -> (r: Vec<String>)
    ensures
        strings_view(r@) == unique_ids(strings_view(ids@)),
{
    let ghost all = strings_view(ids@);
    let mut out: Vec<String> = Vec::new();
    let mut i: usize = 0;
    while i < ids.len()
        invariant
            0 <= i <= ids.len(),
            all == strings_view(ids@),
            strings_view(out@) == unique_ids(all.take(i as int)),
        decreases ids.len() - i,
    {
        proof {
            assert(all.take(i as int + 1).drop_last() == all.take(i as int));
            assert(all.take(i as int + 1).last() == ids@[i as int]@);
        }
        if !contains_id(&out, &ids[i]) {
            let ghost before = out@;
            out.push(ids[i].clone());
            proof {
                assert(strings_view(out@) =~= strings_view(before).push(ids@[i as int]@));
            }
        }
        i = i + 1;
    }
    proof {
        assert(all.take(ids.len() as int) == all);
    }
    out
}

/// The owner ids of the expressions, then those of the listeners.
fn owner_ids(exprs: &Vec<(String, usize, String)>, listeners: &Vec<(String, EventListener)>) -> (r: Vec<String>)
    ensures
        strings_view(r@) == exprs_view(exprs@).map_values(|e: (Seq<char>, int, Seq<char>)| e.0)
            + listeners_view(listeners@).map_values(|l: (Seq<char>, crate::tree::EventType, Seq<char>)| l.0),
{
    let mut out: Vec<String> = Vec::new();
    let mut i: usize = 0;
    while i < exprs.len()
        invariant
            0 <= i <= exprs.len(),
            strings_view(out@) == exprs_view(exprs@).map_values(|e: (Seq<char>, int, Seq<char>)| e.0).take(i as int),
        decreases exprs.len() - i,
    {
        let ghost before = out@;
        out.push(exprs[i].0.clone());
        proof {
            assert(strings_view(out@) =~= strings_view(before).push(exprs@[i as int].0@));
            assert(exprs_view(exprs@)[i as int].0 == exprs@[i as int].0@);
            assert(strings_view(out@) =~= exprs_view(exprs@).map_values(|e: (Seq<char>, int, Seq<char>)| e.0).take(i as int + 1));
        }
        i = i + 1;
    }
    let ghost mid = strings_view(out@);
    proof {
        assert(mid =~= exprs_view(exprs@).map_values(|e: (Seq<char>, int, Seq<char>)| e.0));
    }
    let mut j: usize = 0;
    while j < listeners.len()
        invariant
            0 <= j <= listeners.len(),
            strings_view(out@) == mid + listeners_view(listeners@).map_values(|l: (Seq<char>, crate::tree::EventType, Seq<char>)| l.0).take(j as int),
        decreases listeners.len() - j,
    {
        let ghost before = out@;
        out.push(listeners[j].0.clone());
        proof {
            assert(strings_view(out@) =~= strings_view(before).push(listeners@[j as int].0@));
            assert(listeners_view(listeners@)[j as int].0 == listeners@[j as int].0@);
            assert(strings_view(out@) =~= mid + listeners_view(listeners@).map_values(|l: (Seq<char>, crate::tree::EventType, Seq<char>)| l.0).take(j as int + 1));
        }
        j = j + 1;
    }
    proof {
        assert(strings_view(out@) =~= mid + listeners_view(listeners@).map_values(|l: (Seq<char>, crate::tree::EventType, Seq<char>)| l.0));
    }
    out
}

/// A fresh component class identifier.
fn fresh_component_id() -> (r: String)
    ensures
        is_component_id(r@),
{
    let mut id = String::new();
    id.append("Soquette_");
    let hex = random_hex_id();
    id.append(hex.as_str());
    proof {
        reveal_strlit("Soquette_");
        assert(id@.take(9) =~= "Soquette_"@);
        assert(id@.skip(9) =~= hex@);
    }
    id
}

impl Component {
    /// A stateful component: the tree is traversed once, for its tracked
    /// expressions and for its listeners; the tags these name become the refs.
    pub fn new(state: Vec<(String, Value)>, tree: Node) -> (r: Component)
        ensures
            r.state == state,
            r.tree == tree,
            r.stateful,
            r.well_formed(),
            is_component_id(r.id@),
    {
        let mut exprs: Vec<(String, usize, String)> = Vec::new();
        tree.collect_expressions(&None, &mut exprs);
        let mut listeners: Vec<(String, EventListener)> = Vec::new();
        tree.collect_listeners(&mut listeners);
        proof {
            assert(exprs_view(exprs@) =~= expr_entries(tree, None));
            assert(listeners_view(listeners@) =~= listener_entries(tree));
        }
        let ids = owner_ids(&exprs, &listeners);
        let refs = unique(&ids);
        Component { id: fresh_component_id(), state, tree, refs, exprs, listeners, stateful: true }
    }

    /// A component without state, tracked expressions, refs or listeners.
    pub fn stateless(tree: Node) -> (r: Component)
        ensures
            r.tree == tree,
            !r.stateful,
            r.well_formed(),
            is_component_id(r.id@),
    {
        Component {
            stateful: false,
            id: fresh_component_id(),
            state: Vec::new(),
            exprs: Vec::new(),
            refs: Vec::new(),
            listeners: Vec::new(),
            tree,
        }
    }

    /// Markup of this component mounted as `instance_id`, its state as the context,
    /// and the mount lines of the components nested in it.
    pub fn render(&self, instance_id: String) -> (r: Result<Rendered, EvalError>)
        ensures
            rendered_as(r, render_spec(self.tree, context_view(self.state@), Some(instance_id@))),
    {
        let inst = Some(instance_id);
        render_node(&self.tree, &self.state, &inst)
    }

    /// Markup of this component as the document shell, outside any instance.
    pub fn render_document(&self) -> (r: Result<Rendered, EvalError>)
        ensures
            rendered_as(r, render_spec(self.tree, context_view(self.state@), None)),
    {
        render_node(&self.tree, &self.state, &None)
    }
}

impl Node {
    /// A node that mounts `component` under a fresh instance id.
    pub fn component_invocation(component: Component) -> (r: Node)
        ensures
            r matches Node::ComponentInvocation(c, id) && *c == component && id@.len() == 33
                && id@[0] == '_' && is_hex_id(id@.skip(1)),
    {
        let mut id = String::new();
        id.append("_");
        let hex = random_hex_id();
        id.append(hex.as_str());
        proof {
            reveal_strlit("_");
            assert(id@.skip(1) =~= hex@);
        }
        Node::ComponentInvocation(Box::new(component), id)
    }
}

} // verus!
