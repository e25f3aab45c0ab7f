use vstd::prelude::*;
use vstd::string::*;
use crate::value::{context_view, eval, EvalError, EvalErrorV, Value, ValueV};
use crate::tree::{Node, Tag};

verus! {

/// Markup of a tree and the script lines that mount the nested components met in it.
#[derive(Debug)]
pub struct Rendered {
    pub html: String,
    pub script: String,
}

/// Model of a rendering: markup and mount script.
pub type RenderV = Result<(Seq<char>, Seq<char>), EvalErrorV>;

/// The instance attribute, present only inside a mounted instance.
pub open spec fn instance_attr(inst: Option<Seq<char>>) -> Seq<char> {
    match inst {
        Some(i) => " data-instance=\""@ + i + "\""@,
        None => Seq::empty(),
    }
}

/// Markup of an attribute list, each attribute preceded by a space.
pub open spec fn attrs_text(ps: Seq<(String, String)>) -> Seq<char>
    decreases ps.len(),
{
    if ps.len() == 0 {
        Seq::empty()
    } else {
        attrs_text(ps.drop_last()) + " "@ + ps.last().0@ + "=\""@ + ps.last().1@ + "\""@
    }
}

/// The opening markup of a tag.
pub open spec fn open_tag_text(t: Tag, inst: Option<Seq<char>>) -> Seq<char> {
    "<"@ + t.name@ + " id=\""@ + t.id@ + "\""@ + instance_attr(inst) + attrs_text(t.properties@) + ">"@
}

/// The mount line of a nested component instance.
pub open spec fn mount_line(class_id: Seq<char>, instance_id: Seq<char>) -> Seq<char> {
    "\ndocument.__soquette__.static.push(new "@ + class_id + "(\""@ + instance_id + "\"))"@
}

/// What rendering `n` in a context, inside an instance or not, gives.
pub open spec fn render_spec(n: Node, ctx: Seq<(Seq<char>, ValueV)>, inst: Option<Seq<char>>) -> RenderV
    decreases n,
{
    match n {
        Node::Empty => Ok((Seq::empty(), Seq::empty())),
        Node::Text(t) => Ok((t@, Seq::empty())),
        Node::Expression(e) => match eval(e@, ctx) {
            Ok(t) => Ok((t, Seq::empty())),
            Err(err) => Err(err),
        },
        Node::Tag(t) => match render_all(t.children@, ctx, inst) {
            Ok((h, s)) => Ok((open_tag_text(t, inst) + h + "</"@ + t.name@ + ">"@, s)),
            Err(err) => Err(err),
        },
        Node::Fragment(cs) => render_all(cs@, ctx, inst),
        Node::ComponentInvocation(c, id) => match render_spec(c.tree, context_view(c.state@), Some(id@)) {
            Ok((h, s)) => Ok((h, mount_line(c.id@, id@) + s)),
            Err(err) => Err(err),
        },
    }
}

/// Nodes rendered in order: markup joined by newlines, scripts concatenated; the
/// first failure wins.
pub open spec fn render_all(cs: Seq<Node>, ctx: Seq<(Seq<char>, ValueV)>, inst: Option<Seq<char>>) -> RenderV
    decreases cs,
{
    if cs.len() == 0 {
        Ok((Seq::empty(), Seq::empty()))
    } else {
        match render_all(cs.drop_last(), ctx, inst) {
            Err(err) => Err(err),
            Ok((h0, s0)) => match render_spec(cs.last(), ctx, inst) {
                Err(err) => Err(err),
                Ok((h1, s1)) => Ok((if cs.len() == 1 { h1 } else { h0 + "\n"@ + h1 }, s0 + s1)),
            },
        }
    }
}

pub proof fn lemma_render_all_failure_stays(cs: Seq<Node>, ctx: Seq<(Seq<char>, ValueV)>, inst: Option<Seq<char>>, j: int, k: int)
    requires
        0 <= j <= k <= cs.len(),
        render_all(cs.take(j), ctx, inst) is Err,
    ensures
        render_all(cs.take(k), ctx, inst) == render_all(cs.take(j), ctx, inst),
    decreases k - j,
{
    if k > j {
        lemma_render_all_failure_stays(cs, ctx, inst, j, k - 1);
        assert(cs.take(k).drop_last() == cs.take(k - 1));
    }
}

/// Whether an outcome matches its model.
pub open spec fn rendered_as(r: Result<Rendered, EvalError>, m: RenderV) -> bool {
    match m {
        Ok((h, s)) => r matches Ok(out) && out.html@ == h && out.script@ == s,
        Err(err) => r matches Err(e) && e@ == err,
    }
}

/// Option of a string, as a model.
pub open spec fn option_view(o: Option<String>) -> Option<Seq<char>> {
    match o {
        Some(s) => Some(s@),
        None => None,
    }
}

/// Renders the children of `cs` in order (see `render_all`).
fn render_nodes(cs: &Vec<Node>, ctx: &Vec<(String, Value)>, inst: &Option<String>) -> (r: Result<Rendered, EvalError>)
    ensures
        rendered_as(r, render_all(cs@, context_view(ctx@), option_view(*inst))),
    decreases cs,
{
    let ghost cv = context_view(ctx@);
    let ghost iv = option_view(*inst);
    proof {
        assert forall|k: int| 0 <= k < cs@.len() implies decreases_to!(*cs => #[trigger] cs@[k]) by {
            assert(decreases_to!(*cs => cs@));
            assert(decreases_to!(cs@ => cs@[k]));
        }
    }
    let mut html = String::new();
    let mut script = String::new();
    let mut i: usize = 0;
    while i < cs.len()
        invariant
            0 <= i <= cs.len(),
            cv == context_view(ctx@),
            iv == option_view(*inst),
            forall|k: int| 0 <= k < cs@.len() ==> decreases_to!(*cs => #[trigger] cs@[k]),
            render_all(cs@.take(i as int), cv, iv) matches Ok((h, s)) && html@ == h && script@ == s,
        decreases cs.len() - i,
    {
        proof {
            assert(cs@.take(i as int + 1).drop_last() == cs@.take(i as int));
            assert(cs@.take(i as int + 1).last() == cs@[i as int]);
        }
        match render_node(&cs[i], ctx, inst) {
            Ok(out) => {
                if i > 0 {
                    html.append("\n");
                }
                html.append(out.html.as_str());
                script.append(out.script.as_str());
            },
            Err(e) => {
                proof {
                    lemma_render_all_failure_stays(cs@, cv, iv, i as int + 1, cs@.len() as int);
                    assert(cs@.take(cs@.len() as int) == cs@);
                }
                return Err(e);
            },
        }
        i = i + 1;
    }
    proof {
        assert(cs@.take(cs.len() as int) == cs@);
    }
    Ok(Rendered { html, script })
}

/// Renders one node (see `render_spec`).
pub fn render_node(n: &Node, ctx: &Vec<(String, Value)>, inst: &Option<String>) -> (r: Result<Rendered, EvalError>)
    ensures
        rendered_as(r, render_spec(*n, context_view(ctx@), option_view(*inst))),
    decreases n,
{
    match n {
        Node::Empty => Ok(Rendered { html: String::new(), script: String::new() }),
        Node::Text(t) => Ok(Rendered { html: t.clone(), script: String::new() }),
        Node::Expression(e) => match e.evaluate(ctx) {
            Ok(s) => Ok(Rendered { html: s, script: String::new() }),
            Err(err) => Err(err),
        },
        Node::Fragment(cs) => {
            proof {
                assert(decreases_to!(*n => (*n)->Fragment_0));
            }
            render_nodes(cs, ctx, inst)
        },
        Node::Tag(t) => {
            proof {
                assert(decreases_to!(*n => (*n)->Tag_0));
                assert(decreases_to!(*t => t.children));
            }
            match render_nodes(&t.children, ctx, inst) {
                Ok(inner) => {
                    let mut html = String::new();
                    html.append("<");
                    html.append(t.name.as_str());
                    html.append(" id=\"");
                    html.append(t.id.as_str());
                    html.append("\"");
                    match inst {
                        Some(i) => {
                            html.append(" data-instance=\"");
                            html.append(i.as_str());
                            html.append("\"");
                        },
                        None => {},
                    }
                    push_attrs(&t.properties, &mut html);
                    html.append(">");
                    proof {
                        assert(html@ =~= open_tag_text(*t, option_view(*inst)));
                    }
                    let ghost opened = html@;
                    html.append(inner.html.as_str());
                    html.append("</");
                    html.append(t.name.as_str());
                    html.append(">");
                    proof {
                        assert(html@ =~= opened + inner.html@ + "</"@ + t.name@ + ">"@);
                    }
                    Ok(Rendered { html, script: inner.script })
                },
                Err(err) => Err(err),
            }
        },
        Node::ComponentInvocation(c, id) => {
            proof {
                assert(decreases_to!(*n => (*n)->ComponentInvocation_0));
                assert(decreases_to!(**c => c.tree));
            }
            let nested_inst = Some(id.clone());
            match render_node(&c.tree, &c.state, &nested_inst) {
                Ok(inner) => {
                    let mut script = String::new();
                    script.append("\ndocument.__soquette__.static.push(new ");
                    script.append(c.id.as_str());
                    script.append("(\"");
                    script.append(id.as_str());
                    script.append("\"))");
                    proof {
                        assert(script@ =~= mount_line(c.id@, id@));
                    }
                    script.append(inner.script.as_str());
                    Ok(Rendered { html: inner.html, script })
                },
                Err(err) => Err(err),
            }
        },
    }
}

/// Appends the markup of an attribute list.
fn push_attrs(ps: &Vec<(String, String)>, out: &mut String)
    ensures
        final(out)@ == old(out)@ + attrs_text(ps@),
{
    let ghost start = out@;
    let mut i: usize = 0;
    while i < ps.len()
        invariant
            0 <= i <= ps.len(),
            out@ == start + attrs_text(ps@.take(i as int)),
        decreases ps.len() - i,
    {
        proof {
            assert(ps@.take(i as int + 1).drop_last() == ps@.take(i as int));
        }
        out.append(" ");
        out.append(ps[i].0.as_str());
        out.append("=\"");
        out.append(ps[i].1.as_str());
        out.append("\"");
        proof {
            assert(out@ =~= start + attrs_text(ps@.take(i as int + 1)));
        }
        i = i + 1;
    }
    proof {
        assert(ps@.take(ps.len() as int) == ps@);
    }
}

/// Renders trees in a fixed context, inside a mounted instance or as the document.
pub struct Renderer {
    pub context: Vec<(String, Value)>,
    pub instance_id: Option<String>,
}

impl Renderer {
    /// A renderer for the document, outside any instance.
    pub fn new(context: Vec<(String, Value)>) -> (r: Renderer)
        ensures
            r.context == context,
            r.instance_id is None,
    {
        Renderer { context, instance_id: None }
    }

    /// A renderer inside the instance `instance_id`.
    pub fn new_instance(context: Vec<(String, Value)>, instance_id: String) -> (r: Renderer)
        ensures
            r.context == context,
            r.instance_id == Some(instance_id),
    {
        Renderer { context, instance_id: Some(instance_id) }
    }

    /// Markup of `root` and the mount lines of the nested components in it.
    pub fn render(&self, root: &Node) -> (r: Result<Rendered, EvalError>)
        ensures
            rendered_as(r, render_spec(*root, context_view(self.context@), option_view(self.instance_id))),
    {
        render_node(root, &self.context, &self.instance_id)
    }
}

} // verus!
