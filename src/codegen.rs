use vstd::prelude::*;
use vstd::string::*;
use crate::component::{strings_view, Component};
use crate::functions::function_js;
use crate::text::{decimal, join, lemma_join_push, push_index};
use crate::tree::{event_type_js, EventListener};
use crate::value::{value_js, Value};

verus! {

/// The class text: four slots filled in order (class identifier, state fields,
/// a reserved block, constructor and methods).
pub open spec fn class_template(class_id: Seq<char>, fields: Seq<char>, reserved: Seq<char>, body: Seq<char>) -> Seq<char> {
    "class "@ + class_id + " {\n"@ + fields + "\n"@ + reserved + "\n"@ + body + "\n}\n"@
}

/// A backing field with its initial value.
pub open spec fn field_line(key: Seq<char>, v: Value) -> Seq<char> {
    "_"@ + key + " = "@ + value_js(v@) + ";"@
}

/// A handle to a tag, looked up within the instance only.
pub open spec fn ref_line(id: Seq<char>) -> Seq<char> {
    "this."@ + id + " = document.querySelector(`#"@ + id + "[data-instance=${this.instanceID}]`);"@
}

/// Rewrites the text at a child position of a tag with an expression's value.
pub open spec fn refresh_line(id: Seq<char>, index: int, expr: Seq<char>) -> Seq<char> {
    "this."@ + id + ".childNodes["@ + decimal(index) + "].textContent = "@ + expr + ";"@
}

/// Installs a listener on a tag's handle.
pub open spec fn listener_line(id: Seq<char>, l: EventListener) -> Seq<char> {
    "this."@ + id + ".addEventListener("@ + event_type_js(l.event_type) + ", "@ + function_js(l.listener) + ");"@
}

/// The accessor pair of a state entry: the setter overwrites the backing field,
/// then refreshes once.
pub open spec fn accessor_lines(key: Seq<char>) -> Seq<char> {
    "set "@ + key + "(value) { this._"@ + key + " = value; this.refresh(); }\nget "@ + key
        + "() { return this._"@ + key + "; }"@
}

pub open spec fn field_block(c: Component) -> Seq<char> {
    join(Seq::new(c.state@.len(), |i: int| field_line(c.state@[i].0@, c.state@[i].1)), "\n"@)
}

pub open spec fn ref_block(c: Component) -> Seq<char> {
    join(Seq::new(c.refs@.len(), |i: int| ref_line(c.refs@[i]@)), "\n"@)
}

pub open spec fn listener_block(c: Component) -> Seq<char> {
    join(Seq::new(c.listeners@.len(), |i: int| listener_line(c.listeners@[i].0@, c.listeners@[i].1)), "\n"@)
}

pub open spec fn refresh_block(c: Component) -> Seq<char> {
    join(
        Seq::new(c.exprs@.len(), |i: int| refresh_line(c.exprs@[i].0@, c.exprs@[i].1 as int, c.exprs@[i].2@)),
        "\n"@,
    )
}

pub open spec fn accessor_block(c: Component) -> Seq<char> {
    join(Seq::new(c.state@.len(), |i: int| accessor_lines(c.state@[i].0@)), "\n"@)
}

/// Constructor (binds the instance, resolves refs, installs listeners), the
/// refresh method (re-evaluates every tracked expression) and the accessors.
pub open spec fn method_block(c: Component) -> Seq<char> {
    "constructor(instanceID) {\nthis.instanceID = instanceID;\n"@ + ref_block(c) + "\n"@ + listener_block(c)
        + "\n}\n\nrefresh() {\n"@ + refresh_block(c) + "\n}\n\n"@ + accessor_block(c)
}

/// The class definition of a component.
pub open spec fn class_text(c: Component) -> Seq<char> {
    class_template(c.id@, field_block(c), Seq::empty(), method_block(c))
}

/// Joins lines with newlines.
fn join_lines(lines: &Vec<String>) -> (r: String)
    ensures
        r@ == join(strings_view(lines@), "\n"@),
{
    let ghost parts = strings_view(lines@);
    let mut out = String::new();
    let mut i: usize = 0;
    while i < lines.len()
        invariant
            0 <= i <= lines.len(),
            parts == strings_view(lines@),
            out@ == join(parts.take(i as int), "\n"@),
        decreases lines.len() - i,
    {
        proof {
            lemma_join_push(parts.take(i as int), "\n"@, parts[i as int]);
            assert(parts.take(i as int).push(parts[i as int]) == parts.take(i as int + 1));
        }
        if i > 0 {
            out.append("\n");
        }
        out.append(lines[i].as_str());
        i = i + 1;
    }
    proof {
        assert(parts.take(lines.len() as int) == parts);
    }
    out
}

fn field_block_text(c: &Component) -> (r: String)
    ensures
        r@ == field_block(*c),
{
    let ghost want = Seq::new(c.state@.len(), |i: int| field_line(c.state@[i].0@, c.state@[i].1));
    let mut lines: Vec<String> = Vec::new();
    let mut i: usize = 0;
    while i < c.state.len()
        invariant
            0 <= i <= c.state.len(),
            want == Seq::new(c.state@.len(), |i: int| field_line(c.state@[i].0@, c.state@[i].1)),
            strings_view(lines@) == want.take(i as int),
        decreases c.state.len() - i,
    {
        let mut line = String::new();
        line.append("_");
        line.append(c.state[i].0.as_str());
        line.append(" = ");
        c.state[i].1.push_js(&mut line);
        line.append(";");
        let ghost before = lines@;
        lines.push(line);
        proof {
            assert(strings_view(lines@) =~= strings_view(before).push(lines@[i as int]@));
            assert(lines@[i as int]@ =~= want[i as int]);
            assert(want.take(i as int + 1) =~= want.take(i as int).push(want[i as int]));
        }
        i = i + 1;
    }
    proof {
        assert(want.take(c.state.len() as int) == want);
    }
    join_lines(&lines)
}

fn ref_block_text(c: &Component) -> (r: String)
    ensures
        r@ == ref_block(*c),
{
    let ghost want = Seq::new(c.refs@.len(), |i: int| ref_line(c.refs@[i]@));
    let mut lines: Vec<String> = Vec::new();
    let mut i: usize = 0;
    while i < c.refs.len()
        invariant
            0 <= i <= c.refs.len(),
            want == Seq::new(c.refs@.len(), |i: int| ref_line(c.refs@[i]@)),
            strings_view(lines@) == want.take(i as int),
        decreases c.refs.len() - i,
    {
        let mut line = String::new();
        line.append("this.");
        line.append(c.refs[i].as_str());
        line.append(" = document.querySelector(`#");
        line.append(c.refs[i].as_str());
        line.append("[data-instance=${this.instanceID}]`);");
        let ghost before = lines@;
        lines.push(line);
        proof {
            assert(strings_view(lines@) =~= strings_view(before).push(lines@[i as int]@));
            assert(lines@[i as int]@ =~= want[i as int]);
            assert(want.take(i as int + 1) =~= want.take(i as int).push(want[i as int]));
        }
        i = i + 1;
    }
    proof {
        assert(want.take(c.refs.len() as int) == want);
    }
    join_lines(&lines)
}

fn listener_block_text(c: &Component) -> (r: String)
    ensures
        r@ == listener_block(*c),
{
    let ghost want = Seq::new(c.listeners@.len(), |i: int| listener_line(c.listeners@[i].0@, c.listeners@[i].1));
    let mut lines: Vec<String> = Vec::new();
    let mut i: usize = 0;
    while i < c.listeners.len()
        invariant
            0 <= i <= c.listeners.len(),
            want == Seq::new(c.listeners@.len(), |i: int| listener_line(c.listeners@[i].0@, c.listeners@[i].1)),
            strings_view(lines@) == want.take(i as int),
        decreases c.listeners.len() - i,
    {
        let mut line = String::new();
        line.append("this.");
        line.append(c.listeners[i].0.as_str());
        line.append(".addEventListener(");
        line.append(c.listeners[i].1.event_type.js());
        line.append(", ");
        let handler = c.listeners[i].1.listener.js();
        line.append(handler.as_str());
        line.append(");");
        let ghost before = lines@;
        lines.push(line);
        proof {
            assert(strings_view(lines@) =~= strings_view(before).push(lines@[i as int]@));
            assert(lines@[i as int]@ =~= want[i as int]);
            assert(want.take(i as int + 1) =~= want.take(i as int).push(want[i as int]));
        }
        i = i + 1;
    }
    proof {
        assert(want.take(c.listeners.len() as int) == want);
    }
    join_lines(&lines)
}

fn refresh_block_text(c: &Component) -> (r: String)
    ensures
        r@ == refresh_block(*c),
{
    let ghost want = Seq::new(
        c.exprs@.len(),
        |i: int| refresh_line(c.exprs@[i].0@, c.exprs@[i].1 as int, c.exprs@[i].2@),
    );
    let mut lines: Vec<String> = Vec::new();
    let mut i: usize = 0;
    while i < c.exprs.len()
        invariant
            0 <= i <= c.exprs.len(),
            want == Seq::new(
                c.exprs@.len(),
                |i: int| refresh_line(c.exprs@[i].0@, c.exprs@[i].1 as int, c.exprs@[i].2@),
            ),
            strings_view(lines@) == want.take(i as int),
        decreases c.exprs.len() - i,
    {
        let mut line = String::new();
        line.append("this.");
        line.append(c.exprs[i].0.as_str());
        line.append(".childNodes[");
        push_index(&mut line, c.exprs[i].1);
        line.append("].textContent = ");
        line.append(c.exprs[i].2.as_str());
        line.append(";");
        let ghost before = lines@;
        lines.push(line);
        proof {
            assert(strings_view(lines@) =~= strings_view(before).push(lines@[i as int]@));
            assert(lines@[i as int]@ =~= want[i as int]);
            assert(want.take(i as int + 1) =~= want.take(i as int).push(want[i as int]));
        }
        i = i + 1;
    }
    proof {
        assert(want.take(c.exprs.len() as int) == want);
    }
    join_lines(&lines)
}

fn accessor_block_text(c: &Component) -> (r: String)
    ensures
        r@ == accessor_block(*c),
{
    let ghost want = Seq::new(c.state@.len(), |i: int| accessor_lines(c.state@[i].0@));
    let mut lines: Vec<String> = Vec::new();
    let mut i: usize = 0;
    while i < c.state.len()
        invariant
            0 <= i <= c.state.len(),
            want == Seq::new(c.state@.len(), |i: int| accessor_lines(c.state@[i].0@)),
            strings_view(lines@) == want.take(i as int),
        decreases c.state.len() - i,
    {
        let key = c.state[i].0.as_str();
        let mut line = String::new();
        line.append("set ");
        line.append(key);
        line.append("(value) { this._");
        line.append(key);
        line.append(" = value; this.refresh(); }\nget ");
        line.append(key);
        line.append("() { return this._");
        line.append(key);
        line.append("; }");
        let ghost before = lines@;
        lines.push(line);
        proof {
            assert(strings_view(lines@) =~= strings_view(before).push(lines@[i as int]@));
            assert(lines@[i as int]@ =~= want[i as int]);
            assert(want.take(i as int + 1) =~= want.take(i as int).push(want[i as int]));
        }
        i = i + 1;
    }
    proof {
        assert(want.take(c.state.len() as int) == want);
    }
    join_lines(&lines)
}

impl Component {
    /// The class definition that reproduces this component at run time.
    pub fn generate_class(&self) -> (r: String)
        ensures
            r@ == class_text(*self),
    {
        let fields = field_block_text(self);
        let refs = ref_block_text(self);
        let listeners = listener_block_text(self);
        let refresh = refresh_block_text(self);
        let accessors = accessor_block_text(self);
        let mut body = String::new();
        body.append("constructor(instanceID) {\nthis.instanceID = instanceID;\n");
        body.append(refs.as_str());
        body.append("\n");
        body.append(listeners.as_str());
        body.append("\n}\n\nrefresh() {\n");
        body.append(refresh.as_str());
        body.append("\n}\n\n");
        body.append(accessors.as_str());
        proof {
            assert(body@ =~= method_block(*self));
        }
        let mut out = String::new();
        out.append("class ");
        out.append(self.id.as_str());
        out.append(" {\n");
        out.append(fields.as_str());
        out.append("\n");
        out.append("\n");
        out.append(body.as_str());
        out.append("\n}\n");
        proof {
            assert(out@ =~= class_template(self.id@, fields@, Seq::empty(), body@));
        }
        out
    }
}

/// `x` occurs in `s` as a contiguous run.
pub open spec fn occurs_in(x: Seq<char>, s: Seq<char>) -> bool {
    exists|k: int| 0 <= k && k + x.len() <= s.len() && #[trigger] s.subrange(k, k + x.len()) == x
}

proof fn lemma_occurs_middle(x: Seq<char>, a: Seq<char>, b: Seq<char>, c: Seq<char>)
    requires
        occurs_in(x, b),
    ensures
        occurs_in(x, a + b + c),
{
    let k = choose|k: int| 0 <= k && k + x.len() <= b.len() && #[trigger] b.subrange(k, k + x.len()) == x;
    let s = a + b + c;
    let m = a.len() + k;
    assert(s.subrange(m, m + x.len()) =~= b.subrange(k, k + x.len()));
}

proof fn lemma_occurs_whole(x: Seq<char>)
    ensures
        occurs_in(x, x),
{
    assert(x.subrange(0int, 0int + x.len()) =~= x);
}

/// Each part occurs in the joined text.
proof fn lemma_join_parts_occur(parts: Seq<Seq<char>>, sep: Seq<char>)
    ensures
        forall|i: int| 0 <= i < parts.len() ==> occurs_in(#[trigger] parts[i], join(parts, sep)),
    decreases parts.len(),
{
    if parts.len() == 1 {
        lemma_occurs_whole(parts[0]);
    } else if parts.len() > 1 {
        let front = parts.drop_last();
        lemma_join_parts_occur(front, sep);
        assert forall|i: int| 0 <= i < parts.len() implies occurs_in(#[trigger] parts[i], join(parts, sep)) by {
            if i < parts.len() - 1 {
                assert(parts[i] == front[i]);
                lemma_occurs_middle(parts[i], Seq::empty(), join(front, sep), sep + parts.last());
                assert(Seq::<char>::empty() + join(front, sep) + (sep + parts.last()) =~= join(parts, sep));
            } else {
                lemma_occurs_whole(parts.last());
                lemma_occurs_middle(parts.last(), join(front, sep) + sep, parts.last(), Seq::empty());
                assert(join(front, sep) + sep + parts.last() + Seq::<char>::empty() =~= join(parts, sep));
            }
        }
    }
}

proof fn lemma_method_block_in_class(c: Component, x: Seq<char>)
    requires
        occurs_in(x, method_block(c)),
    ensures
        occurs_in(x, class_text(c)),
{
    let head = "class "@ + c.id@ + " {\n"@ + field_block(c) + "\n"@ + Seq::<char>::empty() + "\n"@;
    let tail = "\n}\n"@;
    assert(class_text(c) =~= head + method_block(c) + tail);
    lemma_occurs_middle(x, head, method_block(c), tail);
}

/// The generated class holds the accessor pair of every state entry.
pub proof fn law_class_has_every_accessor(c: Component)
    ensures
        forall|i: int| 0 <= i < c.state@.len() ==> occurs_in(#[trigger] accessor_lines(c.state@[i].0@), class_text(c)),
{
    let parts = Seq::new(c.state@.len(), |i: int| accessor_lines(c.state@[i].0@));
    lemma_join_parts_occur(parts, "\n"@);
    let before = "constructor(instanceID) {\nthis.instanceID = instanceID;\n"@ + ref_block(c) + "\n"@
        + listener_block(c) + "\n}\n\nrefresh() {\n"@ + refresh_block(c) + "\n}\n\n"@;
    assert(method_block(c) =~= before + accessor_block(c) + Seq::empty());
    assert forall|i: int| 0 <= i < c.state@.len() implies occurs_in(#[trigger] accessor_lines(c.state@[i].0@), class_text(c)) by {
        assert(parts[i] == accessor_lines(c.state@[i].0@));
        lemma_occurs_middle(parts[i], before, accessor_block(c), Seq::empty());
        lemma_method_block_in_class(c, parts[i]);
    }
}

/// The refresh method of the generated class rewrites every tracked expression.
pub proof fn law_class_refreshes_every_expression(c: Component)
    ensures
        forall|i: int| 0 <= i < c.exprs@.len()
            ==> occurs_in(#[trigger] refresh_line(c.exprs@[i].0@, c.exprs@[i].1 as int, c.exprs@[i].2@), class_text(c)),
{
    let parts = Seq::new(
        c.exprs@.len(),
        |i: int| refresh_line(c.exprs@[i].0@, c.exprs@[i].1 as int, c.exprs@[i].2@),
    );
    lemma_join_parts_occur(parts, "\n"@);
    let before = "constructor(instanceID) {\nthis.instanceID = instanceID;\n"@ + ref_block(c) + "\n"@
        + listener_block(c) + "\n}\n\nrefresh() {\n"@;
    let after = "\n}\n\n"@ + accessor_block(c);
    assert(method_block(c) =~= before + refresh_block(c) + after);
    assert forall|i: int| 0 <= i < c.exprs@.len()
        implies occurs_in(#[trigger] refresh_line(c.exprs@[i].0@, c.exprs@[i].1 as int, c.exprs@[i].2@), class_text(c)) by {
        let x = parts[i];
        lemma_occurs_middle(x, before, refresh_block(c), after);
        lemma_method_block_in_class(c, x);
    }
}

/// The setter of a state entry overwrites the backing field and then calls
/// `refresh`.
pub proof fn law_setter_refreshes(key: Seq<char>)
    ensures
        occurs_in("this._"@ + key + " = value; this.refresh();"@, accessor_lines(key)),
{
    let x = "this._"@ + key + " = value; this.refresh();"@;
    lemma_occurs_whole(x);
    let pre = "set "@ + key + "(value) { "@;
    let post = " }\nget "@ + key + "() { return this._"@ + key + "; }"@;
    reveal_strlit("(value) { this._");
    reveal_strlit("(value) { ");
    reveal_strlit("this._");
    reveal_strlit(" = value; this.refresh(); }\nget ");
    reveal_strlit(" = value; this.refresh();");
    reveal_strlit(" }\nget ");
    assert("(value) { this._"@ =~= "(value) { "@ + "this._"@);
    assert(" = value; this.refresh(); }\nget "@ =~= " = value; this.refresh();"@ + " }\nget "@);
    assert(accessor_lines(key) =~= pre + x + post);
    lemma_occurs_middle(x, pre, x, post);
}

} // verus!
