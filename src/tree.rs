use vstd::prelude::*;
use vstd::string::*;
use crate::component::Component;
use crate::functions::{function_js, same_statements, Function};
use crate::value::{js, Expression};

verus! {

/// Kinds of events a listener can be bound to.
#[derive(Clone, Copy, PartialEq, Eq, Structural, Debug)]
pub enum EventType {
    Click,
}

/// Script text of an event kind: its quoted name.
pub open spec fn event_type_js(et: EventType) -> Seq<char> {
    match et {
        EventType::Click => "\"click\""@,
    }
}

impl EventType {
    /// Script text of this event kind.
    pub fn js(&self) -> (r: &'static str)
        ensures
            r@ == event_type_js(*self),
    {
        match self {
            EventType::Click => "\"click\"",
        }
    }
}

/// A handler bound to an event of a tag.
#[derive(Debug)]
pub struct EventListener {
    pub event_type: EventType,
    pub listener: Function,
}

impl EventListener {
    pub fn new(et: EventType, listener: Function) -> (r: EventListener)
        ensures
            r.event_type == et,
            r.listener == listener,
    {
        EventListener { event_type: et, listener }
    }

    /// A copy of this listener.
    pub fn copy(&self) -> (r: EventListener)
        ensures
            r.event_type == self.event_type,
            same_statements(r.listener.statements@, self.listener.statements@),
            function_js(r.listener) == function_js(self.listener),
    {
        EventListener { event_type: self.event_type, listener: self.listener.copy() }
    }
}

/// An element of the render tree. Its id is the join key between the rendered
/// markup and the generated class.
#[derive(Debug)]
pub struct Tag {
    pub id: String,
    pub name: String,
    /// Attributes in declaration order, keys unique.
    pub properties: Vec<(String, String)>,
    /// Children in declaration order; a child's index is its position here.
    pub children: Vec<Node>,
    pub listeners: Vec<EventListener>,
}

/// A node of the render tree.
#[derive(Debug)]
pub enum Node {
    Tag(Tag),
    Fragment(Vec<Node>),
    Empty,
    Text(String),
    Expression(Expression),
    /// A nested component mounted under the given instance id.
    ComponentInvocation(Box<Component>, String),
}

impl Expression {
    /// This expression as a node of the render tree.
    pub fn into_node(self) -> (r: Node)
        ensures
            r == Node::Expression(self),
    {
        Node::Expression(self)
    }
}

/// Model of an attribute list.
pub open spec fn properties_view(ps: Seq<(String, String)>) -> Seq<(Seq<char>, Seq<char>)> {
    ps.map_values(|p: (String, String)| (p.0@, p.1@))
}

/// No key occurs twice.
pub open spec fn keys_unique(ps: Seq<(Seq<char>, Seq<char>)>) -> bool {
    forall|i: int, j: int| 0 <= i < j < ps.len() ==> #[trigger] ps[i].0 != #[trigger] ps[j].0
}

/// The attribute list with `key` set to `value`: an existing entry is overwritten
/// in place, a new one goes last.
pub open spec fn properties_insert(ps: Seq<(Seq<char>, Seq<char>)>, key: Seq<char>, value: Seq<char>) -> Seq<(Seq<char>, Seq<char>)> {
    if exists|i: int| 0 <= i < ps.len() && ps[i].0 == key {
        let i = choose|i: int| 0 <= i < ps.len() && ps[i].0 == key;
        ps.update(i, (key, value))
    } else {
        ps.push((key, value))
    }
}

/// Position of the attribute named `key`, if any.
fn find_key(ps: &Vec<(String, String)>, key: &String) -> (r: Option<usize>)
    ensures
        match r {
            Some(i) => i < ps@.len() && properties_view(ps@)[i as int].0 == key@,
            None => forall|k: int| 0 <= k < ps@.len() ==> properties_view(ps@)[k].0 != key@,
        },
{
    let mut i: usize = 0;
    while i < ps.len()
        invariant
            0 <= i <= ps.len(),
            forall|k: int| 0 <= k < i ==> properties_view(ps@)[k].0 != key@,
        decreases ps.len() - i,
    {
        if ps[i].0 == *key {
            return Some(i);
        }
        i = i + 1;
    }
    None
}

impl Tag {
    /// A tag with the given id, name and children, no attributes and no listeners.
    pub fn new(id: String, name: String, children: Vec<Node>) -> (r: Tag)
        ensures
            r.id == id,
            r.name == name,
            r.children == children,
            r.properties@.len() == 0,
            r.listeners@.len() == 0,
    {
        Tag { id, name, properties: Vec::new(), children, listeners: Vec::new() }
    }

    /// This tag with attribute `key` set to `value`.
    pub fn property(self, key: String, value: String) -> (r: Tag)
        requires
            keys_unique(properties_view(self.properties@)),
        ensures
            properties_view(r.properties@) == properties_insert(properties_view(self.properties@), key@, value@),
            keys_unique(properties_view(r.properties@)),
            r.id == self.id,
            r.name == self.name,
            r.children == self.children,
            r.listeners == self.listeners,
    {
        let mut tag = self;
        let ghost ps = properties_view(tag.properties@);
        match find_key(&tag.properties, &key) {
            Some(i) => {
                proof {
                    let c = choose|k: int| 0 <= k < ps.len() && ps[k].0 == key@;
                    if c != i {
                        assert(ps[c].0 == ps[i as int].0);
                    }
                }
                tag.properties.set(i, (key, value));
                proof {
                    assert(properties_view(tag.properties@) =~= ps.update(i as int, (key@, value@)));
                }
            },
            None => {
                tag.properties.push((key, value));
                proof {
                    assert(properties_view(tag.properties@) =~= ps.push((key@, value@)));
                }
            },
        }
        tag
    }

    /// This tag with one more listener.
    pub fn listener(self, et: EventType, function: Function) -> (r: Tag)
        ensures
            r.listeners@ == self.listeners@.push(EventListener { event_type: et, listener: function }),
            r.id == self.id,
            r.name == self.name,
            r.children == self.children,
            r.properties == self.properties,
    {
        let mut tag = self;
        tag.listeners.push(EventListener::new(et, function));
        tag
    }

    /// This tag as a node.
    pub fn node(self) -> (r: Node)
        ensures
            r == Node::Tag(self),
    {
        Node::Tag(self)
    }
}

/// Owner tag id, child index and script text of each expression below `n`, in
/// depth-first order. `parent` is the nearest enclosing tag and the position under
/// it; an expression with no enclosing tag gives nothing.
pub open spec fn expr_entries(n: Node, parent: Option<(Seq<char>, int)>) -> Seq<(Seq<char>, int, Seq<char>)>
    decreases n,
{
    match n {
        Node::Tag(t) => children_expr_entries(t.children@, t.id@),
        Node::Fragment(cs) => fragment_expr_entries(cs@, parent),
        Node::Expression(e) => match parent {
            Some(p) => seq![(p.0, p.1, js(e@))],
            None => Seq::empty(),
        },
        _ => Seq::empty(),
    }
}

/// Entries of a tag's children, each under the tag and its own position.
pub open spec fn children_expr_entries(cs: Seq<Node>, id: Seq<char>) -> Seq<(Seq<char>, int, Seq<char>)>
    decreases cs,
{
    if cs.len() == 0 {
        Seq::empty()
    } else {
        children_expr_entries(cs.drop_last(), id) + expr_entries(cs.last(), Some((id, cs.len() - 1)))
    }
}

/// Entries of a fragment's children, which share the fragment's place.
pub open spec fn fragment_expr_entries(cs: Seq<Node>, parent: Option<(Seq<char>, int)>) -> Seq<(Seq<char>, int, Seq<char>)>
    decreases cs,
{
    if cs.len() == 0 {
        Seq::empty()
    } else {
        fragment_expr_entries(cs.drop_last(), parent) + expr_entries(cs.last(), parent)
    }
}

/// Model of a listener entry: owner tag id, event kind, handler script text.
pub open spec fn listener_entry(id: Seq<char>, l: EventListener) -> (Seq<char>, EventType, Seq<char>) {
    (id, l.event_type, function_js(l.listener))
}

/// The listeners of one tag.
pub open spec fn tag_listener_entries(t: Tag) -> Seq<(Seq<char>, EventType, Seq<char>)> {
    Seq::new(t.listeners@.len(), |i: int| listener_entry(t.id@, t.listeners@[i]))
}

/// Every listener declared on a tag at or below `n`, in depth-first order, a tag's
/// own before those of its children.
pub open spec fn listener_entries(n: Node) -> Seq<(Seq<char>, EventType, Seq<char>)>
    decreases n,
{
    match n {
        Node::Tag(t) => tag_listener_entries(t) + nodes_listener_entries(t.children@),
        Node::Fragment(cs) => nodes_listener_entries(cs@),
        _ => Seq::empty(),
    }
}

pub open spec fn nodes_listener_entries(cs: Seq<Node>) -> Seq<(Seq<char>, EventType, Seq<char>)>
    decreases cs,
{
    if cs.len() == 0 {
        Seq::empty()
    } else {
        nodes_listener_entries(cs.drop_last()) + listener_entries(cs.last())
    }
}

/// Model of collected expression entries.
pub open spec fn exprs_view(v: Seq<(String, usize, String)>) -> Seq<(Seq<char>, int, Seq<char>)> {
    v.map_values(|t: (String, usize, String)| (t.0@, t.1 as int, t.2@))
}

/// Model of collected listener entries.
pub open spec fn listeners_view(v: Seq<(String, EventListener)>) -> Seq<(Seq<char>, EventType, Seq<char>)> {
    v.map_values(|p: (String, EventListener)| listener_entry(p.0@, p.1))
}

impl Node {
    /// Appends the expression entries of this node (see `expr_entries`).
    pub fn collect_expressions(&self, parent: &Option<(String, usize)>, out: &mut Vec<(String, usize, String)>)
        ensures
            exprs_view(final(out)@) == exprs_view(old(out)@) + expr_entries(*self, match parent {
                Some(p) => Some((p.0@, p.1 as int)),
                None => None,
            }),
        decreases self,
    {
        let ghost pv: Option<(Seq<char>, int)> = match parent {
            Some(p) => Some((p.0@, p.1 as int)),
            None => None,
        };
        match self {
            Node::Tag(t) => {
                let cs = &t.children;
                proof {
                    assert forall|k: int| 0 <= k < cs@.len() implies decreases_to!(*self => #[trigger] cs@[k]) by {
                        assert(decreases_to!(*self => (*self)->Tag_0));
                        assert(decreases_to!(*t => t.children));
                        assert(decreases_to!(*cs => cs@));
                        assert(decreases_to!(cs@ => cs@[k]));
                    }
                }
                let ghost start = exprs_view(out@);
                let mut i: usize = 0;
                while i < cs.len()
                    invariant
                        0 <= i <= cs.len(),
                        forall|k: int| 0 <= k < cs@.len() ==> decreases_to!(*self => #[trigger] cs@[k]),
                        exprs_view(out@) == start + children_expr_entries(cs@.take(i as int), t.id@),
                    decreases cs.len() - i,
                {
                    proof {
                        assert(cs@.take(i as int + 1).drop_last() == cs@.take(i as int));
                        assert(cs@.take(i as int + 1).last() == cs@[i as int]);
                    }
                    let p = Some((t.id.clone(), i));
                    cs[i].collect_expressions(&p, out);
                    i = i + 1;
                }
                proof {
                    assert(cs@.take(cs.len() as int) == cs@);
                }
            },
            Node::Fragment(cs) => {
                proof {
                    assert forall|k: int| 0 <= k < cs@.len() implies decreases_to!(*self => #[trigger] cs@[k]) by {
                        assert(decreases_to!(*self => (*self)->Fragment_0));
                        assert(decreases_to!(*cs => cs@));
                        assert(decreases_to!(cs@ => cs@[k]));
                    }
                }
                let ghost start = exprs_view(out@);
                let mut i: usize = 0;
                while i < cs.len()
                    invariant
                        0 <= i <= cs.len(),
                        forall|k: int| 0 <= k < cs@.len() ==> decreases_to!(*self => #[trigger] cs@[k]),
                        exprs_view(out@) == start + fragment_expr_entries(cs@.take(i as int), pv),
                        pv == match parent {
                            Some(p) => Some((p.0@, p.1 as int)),
                            None => None::<(Seq<char>, int)>,
                        },
                    decreases cs.len() - i,
                {
                    proof {
                        assert(cs@.take(i as int + 1).drop_last() == cs@.take(i as int));
                        assert(cs@.take(i as int + 1).last() == cs@[i as int]);
                    }
                    cs[i].collect_expressions(parent, out);
                    i = i + 1;
                }
                proof {
                    assert(cs@.take(cs.len() as int) == cs@);
                }
            },
            Node::Expression(e) => {
                match parent {
                    Some(p) => {
                        let ghost before = out@;
                        out.push((p.0.clone(), p.1, e.js()));
                        proof {
                            assert(exprs_view(out@) =~= exprs_view(before) + expr_entries(*self, pv));
                        }
                    },
                    None => {
                        assert(exprs_view(out@) =~= exprs_view(out@) + Seq::<(Seq<char>, int, Seq<char>)>::empty());
                    },
                }
            },
            _ => {
                assert(exprs_view(out@) =~= exprs_view(out@) + Seq::<(Seq<char>, int, Seq<char>)>::empty());
            },
        }
    }

    /// Appends the listener entries of this node (see `listener_entries`).
    pub fn collect_listeners(&self, out: &mut Vec<(String, EventListener)>)
        ensures
            listeners_view(final(out)@) == listeners_view(old(out)@) + listener_entries(*self),
        decreases self,
    {
        match self {
            Node::Tag(t) => {
                let ghost start = listeners_view(out@);
                let mut j: usize = 0;
                while j < t.listeners.len()
                    invariant
                        0 <= j <= t.listeners.len(),
                        listeners_view(out@) == start + tag_listener_entries(*t).take(j as int),
                    decreases t.listeners.len() - j,
                {
                    let ghost before = out@;
                    out.push((t.id.clone(), t.listeners[j].copy()));
                    proof {
                        assert(listeners_view(out@) =~= listeners_view(before).push(listener_entry(t.id@, t.listeners@[j as int])));
                        assert(tag_listener_entries(*t).take(j as int + 1) =~= tag_listener_entries(*t).take(j as int).push(listener_entry(t.id@, t.listeners@[j as int])));
                    }
                    j = j + 1;
                }
                proof {
                    assert(tag_listener_entries(*t).take(t.listeners.len() as int) == tag_listener_entries(*t));
                }
                let cs = &t.children;
                proof {
                    assert forall|k: int| 0 <= k < cs@.len() implies decreases_to!(*self => #[trigger] cs@[k]) by {
                        assert(decreases_to!(*self => (*self)->Tag_0));
                        assert(decreases_to!(*t => t.children));
                        assert(decreases_to!(*cs => cs@));
                        assert(decreases_to!(cs@ => cs@[k]));
                    }
                }
                let ghost mid = listeners_view(out@);
                let mut i: usize = 0;
                while i < cs.len()
                    invariant
                        0 <= i <= cs.len(),
                        forall|k: int| 0 <= k < cs@.len() ==> decreases_to!(*self => #[trigger] cs@[k]),
                        listeners_view(out@) == mid + nodes_listener_entries(cs@.take(i as int)),
                    decreases cs.len() - i,
                {
                    proof {
                        assert(cs@.take(i as int + 1).drop_last() == cs@.take(i as int));
                        assert(cs@.take(i as int + 1).last() == cs@[i as int]);
                    }
                    cs[i].collect_listeners(out);
                    i = i + 1;
                }
                proof {
                    assert(cs@.take(cs.len() as int) == cs@);
                }
            },
            Node::Fragment(cs) => {
                proof {
                    assert forall|k: int| 0 <= k < cs@.len() implies decreases_to!(*self => #[trigger] cs@[k]) by {
                        assert(decreases_to!(*self => (*self)->Fragment_0));
                        assert(decreases_to!(*cs => cs@));
                        assert(decreases_to!(cs@ => cs@[k]));
                    }
                }
                let ghost start = listeners_view(out@);
                let mut i: usize = 0;
                while i < cs.len()
                    invariant
                        0 <= i <= cs.len(),
                        forall|k: int| 0 <= k < cs@.len() ==> decreases_to!(*self => #[trigger] cs@[k]),
                        listeners_view(out@) == start + nodes_listener_entries(cs@.take(i as int)),
                    decreases cs.len() - i,
                {
                    proof {
                        assert(cs@.take(i as int + 1).drop_last() == cs@.take(i as int));
                        assert(cs@.take(i as int + 1).last() == cs@[i as int]);
                    }
                    cs[i].collect_listeners(out);
                    i = i + 1;
                }
                proof {
                    assert(cs@.take(cs.len() as int) == cs@);
                }
            },
            _ => {
                assert(listeners_view(out@) =~= listeners_view(out@) + Seq::<(Seq<char>, EventType, Seq<char>)>::empty());
            },
        }
    }
}

} // verus!
