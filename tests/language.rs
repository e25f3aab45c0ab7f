use soquette::parser::{Node as ParsedNode};
use soquette::{
    build_component, compile_component, parser, Construct, EvalError, Expression, Node, Operation, ParseError,
    Renderer, Statement, Value,
};

const COUNTER: &str = "module main
component Counter() {
  state count = 0
  <div><p>Counter!</p></div>
}";

fn s(x: &str) -> String {
    x.to_string()
}

fn tag_ids_in(html: &str) -> Vec<String> {
    let mut ids = Vec::new();
    let mut rest = html;
    while let Some(pos) = rest.find(" id=\"") {
        let after = &rest[pos + 5..];
        let end = after.find('"').unwrap();
        ids.push(after[..end].to_string());
        rest = &after[end..];
    }
    ids
}

fn strip_ids(html: &str) -> String {
    let mut out = String::new();
    let mut rest = html;
    while let Some(pos) = rest.find(" id=\"") {
        out.push_str(&rest[..pos]);
        let after = &rest[pos + 5..];
        let end = after.find('"').unwrap();
        rest = &after[end + 1..];
    }
    out.push_str(rest);
    out
}

#[test]
fn format_string_evaluates_against_context() {
    let e = Expression::FormatString(vec![
        Expression::Literal(Value::String(s("Hello, "))),
        Expression::Variable(s("name")),
        Expression::Literal(Value::String(s("!"))),
    ]);
    let ctx = vec![(s("name"), Value::String(s("world")))];
    assert_eq!(e.evaluate(&ctx).unwrap(), "Hello, world!");
}

#[test]
fn empty_format_string_evaluates_to_empty_text() {
    let e = Expression::FormatString(vec![]);
    assert_eq!(e.evaluate(&vec![]).unwrap(), "");
    assert_eq!(e.js(), "``");
}

#[test]
fn missing_variable_is_an_error() {
    let e = Expression::FormatString(vec![
        Expression::Literal(Value::String(s("a"))),
        Expression::Variable(s("missing")),
        Expression::Variable(s("other")),
    ]);
    match e.evaluate(&vec![(s("name"), Value::Number(1))]) {
        Err(EvalError::UnresolvedVariable(name)) => assert_eq!(name, "missing"),
        other => panic!("unexpected {:?}", other),
    }
}

#[test]
fn operations_are_not_evaluated() {
    let e = Expression::Operation(
        Box::new(Expression::Literal(Value::Number(1))),
        Operation::Add,
        Box::new(Expression::Variable(s("x"))),
    );
    assert!(matches!(e.evaluate(&vec![(s("x"), Value::Number(2))]), Err(EvalError::UnsupportedOperation)));
    assert_eq!(e.js(), "1 + this.x");
}

#[test]
fn values_print_and_compile() {
    assert_eq!(Value::Number(-42).text(), "-42");
    assert_eq!(Value::Number(1234567890).js(), "1234567890");
    assert_eq!(Value::String(s("hi")).js(), "\"hi\"");
    assert_eq!(Value::Variable(s("count")).js(), "this.count");
    assert_eq!(Value::Number(i64::MIN).text(), "-9223372036854775808");
}

#[test]
fn first_context_entry_wins() {
    let ctx = vec![(s("a"), Value::Number(1)), (s("a"), Value::Number(2))];
    assert_eq!(Expression::Variable(s("a")).evaluate(&ctx).unwrap(), "1");
    assert_eq!(Expression::Literal(Value::Variable(s("a"))).evaluate(&ctx).unwrap(), "1");
}

#[test]
fn format_string_compiles_to_template_literal() {
    let e = Expression::FormatString(vec![
        Expression::Literal(Value::String(s("Count: "))),
        Expression::Variable(s("count")),
        Expression::Literal(Value::Number(7)),
    ]);
    assert_eq!(e.js(), "`Count: ${this.count}7`");
}

#[test]
fn statement_and_handler_scripts() {
    let st = Statement::Assignment(s("name"), Expression::Literal(Value::String(s("X"))));
    assert_eq!(st.js(), "this.name = \"X\";");
    let f = soquette::Function::new(vec![
        st,
        Statement::Assignment(s("count"), Expression::Literal(Value::Number(3))),
    ]);
    assert_eq!(f.js(), "() => {this.name = \"X\";\nthis.count = 3;}");
}

#[test]
fn counter_module_parses() {
    let m = parser(COUNTER).unwrap();
    assert_eq!(m.name, "main");
    assert_eq!(m.body.len(), 1);
    let d = &m.body[0];
    assert_eq!(d.name, "Counter");
    assert_eq!(d.statements.len(), 1);
    match &d.statements[0] {
        Statement::Assignment(k, Expression::Literal(Value::Number(0))) => assert_eq!(k, "count"),
        other => panic!("unexpected {:?}", other),
    }
    match &d.tree {
        ParsedNode::Tag(div) => {
            assert_eq!(div.name, "div");
            assert_eq!(div.children.len(), 1);
            match &div.children[0] {
                ParsedNode::Tag(p) => {
                    assert_eq!(p.name, "p");
                    assert_eq!(p.children.len(), 1);
                    match &p.children[0] {
                        ParsedNode::Text(t) => assert_eq!(t, "Counter!"),
                        other => panic!("unexpected {:?}", other),
                    }
                }
                other => panic!("unexpected {:?}", other),
            }
        }
        other => panic!("unexpected {:?}", other),
    }
}

#[test]
fn mismatched_closing_tag_is_rejected() {
    let src = "module m\ncomponent A() {\n <div></span>\n}";
    assert_eq!(parser(src).unwrap_err(), ParseError { position: 31, expected: Construct::MatchingClosingTag });
}

#[test]
fn parse_errors_name_the_construct() {
    assert_eq!(parser("modul x").unwrap_err(), ParseError { position: 0, expected: Construct::Module });
    assert_eq!(
        parser("module m component A() { state x = ! }").unwrap_err(),
        ParseError { position: 35, expected: Construct::Value }
    );
    assert_eq!(
        parser("module m component A() { <p>{\"abc</p> }").unwrap_err(),
        ParseError { position: 39, expected: Construct::FormatString }
    );
    assert_eq!(
        parser("module m component A() { <p>{ 1 </p> }").unwrap_err(),
        ParseError { position: 32, expected: Construct::MustacheExpression }
    );
    assert_eq!(
        parser("module m component A() { <p>").unwrap_err(),
        ParseError { position: 28, expected: Construct::ClosingTag }
    );
    assert_eq!(
        parser("module m component A() { <p>{}</p> }").unwrap_err(),
        ParseError { position: 29, expected: Construct::Expression }
    );
    assert_eq!(
        parser("module m component A( { }").unwrap_err(),
        ParseError { position: 22, expected: Construct::Component }
    );
    assert_eq!(
        parser("module m component A() { state x = 99999999999999999999 }").unwrap_err(),
        ParseError { position: 35, expected: Construct::Value }
    );
}

#[test]
fn modules_without_components_and_empty_templates() {
    let m = parser("  module empty  ").unwrap();
    assert_eq!(m.name, "empty");
    assert_eq!(m.body.len(), 0);
    let m = parser("module m\ncomponent A() { }\ncomponent B() {state x = y}").unwrap();
    assert_eq!(m.body.len(), 2);
    assert!(matches!(m.body[0].tree, ParsedNode::Empty));
    match &m.body[1].statements[0] {
        Statement::Assignment(k, Expression::Literal(Value::Variable(v))) => {
            assert_eq!(k, "x");
            assert_eq!(v, "y");
        }
        other => panic!("unexpected {:?}", other),
    }
}

#[test]
fn attributes_keep_order_and_last_value() {
    let m = parser("module m component A() { <a href=\"/x\" class=\"c\" href=\"/y\"></a> }").unwrap();
    match &m.body[0].tree {
        ParsedNode::Tag(t) => {
            assert_eq!(t.properties, vec![(s("href"), s("/y")), (s("class"), s("c"))]);
        }
        other => panic!("unexpected {:?}", other),
    }
}

#[test]
fn format_string_parts_are_parsed() {
    let m = parser("module m component A() { <p>{\"Count: $count!\"}</p> }").unwrap();
    let tag = match &m.body[0].tree {
        ParsedNode::Tag(t) => t,
        other => panic!("unexpected {:?}", other),
    };
    match &tag.children[0] {
        ParsedNode::Expression(e) => assert_eq!(e.js(), "`Count: ${this.count}!`"),
        other => panic!("unexpected {:?}", other),
    }
}

#[test]
fn static_component_renders_declared_structure_with_unique_ids() {
    let src = "module m component Page() { <div class=\"box\"><p>One</p><p>Two</p><span></span></div> }";
    let m = parser(src).unwrap();
    let c = build_component(&m.body[0]);
    let out = c.render_document().unwrap();
    assert_eq!(
        strip_ids(&out.html),
        "<div class=\"box\"><p>One</p>\n<p>Two</p>\n<span></span></div>"
    );
    let ids = tag_ids_in(&out.html);
    assert_eq!(ids.len(), 4);
    for i in 0..ids.len() {
        for j in 0..ids.len() {
            if i != j {
                assert_ne!(ids[i], ids[j]);
            }
        }
        assert!(ids[i].starts_with('_'));
    }
    assert_eq!(out.script, "");
}

#[test]
fn rendering_twice_gives_identical_markup() {
    let src = "module m component A() { state count = 5 <div><p>{\"n=$count\"}</p><b>{count}</b></div> }";
    let m = parser(src).unwrap();
    let c = build_component(&m.body[0]);
    let a = c.render(s("inst1")).unwrap();
    let b = c.render(s("inst1")).unwrap();
    assert_eq!(a.html, b.html);
    assert!(a.html.contains("<p id=\""));
    assert!(a.html.contains("data-instance=\"inst1\">n=5</p>"));
    assert!(a.html.contains("data-instance=\"inst1\">5</b>"));
}

#[test]
fn listeners_and_expressions_are_counted() {
    let src = "module m component A() { state n = 1 <div><button click=\"\">{n}</button><p>{n}{\"x$n\"}</p><a click=\"go\"></a></div> }";
    let m = parser(src).unwrap();
    let c = build_component(&m.body[0]);
    assert_eq!(c.listeners.len(), 2);
    assert_eq!(c.exprs.len(), 3);
    let html = c.render_document().unwrap().html;
    let ids = tag_ids_in(&html);
    for (id, _, _) in &c.exprs {
        assert!(ids.contains(id));
    }
    for (id, l) in &c.listeners {
        assert!(ids.contains(id));
        assert_eq!(l.event_type, soquette::EventType::Click);
    }
    assert_eq!(c.exprs[0].1, 0);
    assert_eq!(c.exprs[1].1, 0);
    assert_eq!(c.exprs[2].1, 1);
    assert_eq!(c.exprs[2].2, "`x${this.n}`");
    assert_eq!(c.refs.len(), 3);
}

#[test]
fn generated_class_wires_state_refs_and_refresh() {
    let m = parser(COUNTER).unwrap();
    let c = build_component(&m.body[0]);
    let class = c.generate_class();
    assert!(class.starts_with(&format!("class {} {{\n_count = 0;\n", c.id)));
    let setter = "set count(value) { this._count = value; this.refresh(); }\nget count() { return this._count; }";
    assert!(class.contains(setter));
    assert_eq!(class.matches("this.refresh()").count(), 1);
    assert!(class.contains("constructor(instanceID) {\nthis.instanceID = instanceID;\n"));
    assert!(class.ends_with("\n}\n"));
}

#[test]
fn refresh_rewrites_every_tracked_expression() {
    let src = "module m component A() { state n = 1 <div><p>{n}</p><button click=\"\">{\"$n!\"}</button></div> }";
    let m = parser(src).unwrap();
    let c = build_component(&m.body[0]);
    let class = c.generate_class();
    for (id, index, expr) in &c.exprs {
        let line = format!("this.{}.childNodes[{}].textContent = {};", id, index, expr);
        assert!(class.contains(&line));
    }
    for id in &c.refs {
        let line = format!("this.{} = document.querySelector(`#{}[data-instance=${{this.instanceID}}]`);", id, id);
        assert!(class.contains(&line));
    }
    let (bid, _) = &c.listeners[0];
    assert!(class.contains(&format!("this.{}.addEventListener(\"click\", () => {{this.n = 1;}});", bid)));
}

#[test]
fn component_ids_are_fresh_and_namespaced() {
    let a = soquette::Component::stateless(Node::Empty);
    let b = soquette::Component::stateless(Node::Empty);
    assert_eq!(a.id.len(), 41);
    assert!(a.id.starts_with("Soquette_"));
    assert!(a.id[9..].chars().all(|c| c.is_ascii_digit() || ('a'..='f').contains(&c)));
    assert_ne!(a.id, b.id);
    assert!(!a.stateful);
}

#[test]
fn nested_component_registers_its_instance() {
    let inner_src = "module m component Inner() { state who = 7 <i>{who}</i> }";
    let inner = build_component(&parser(inner_src).unwrap().body[0]);
    let inner_id = inner.id.clone();
    let node = Node::component_invocation(inner);
    let instance = match &node {
        Node::ComponentInvocation(_, id) => id.clone(),
        other => panic!("unexpected {:?}", other),
    };
    assert_eq!(instance.len(), 33);
    let out = Renderer::new(vec![]).render(&node).unwrap();
    assert_eq!(out.script, format!("\ndocument.__soquette__.static.push(new {}(\"{}\"))", inner_id, instance));
    assert!(out.html.contains(&format!("data-instance=\"{}\">7</i>", instance)));
}

#[test]
fn fragments_join_with_newlines() {
    let node = Node::Fragment(vec![Node::Text(s("a")), Node::Empty, Node::Text(s("b"))]);
    let out = Renderer::new_instance(vec![], s("i")).render(&node).unwrap();
    assert_eq!(out.html, "a\n\nb");
}

#[test]
fn tag_builders_set_properties_and_listeners() {
    let t = soquette::Tag::new(s("t1"), s("a"), vec![Node::Text(s("go"))])
        .property(s("href"), s("/a"))
        .property(s("href"), s("/b"))
        .listener(soquette::EventType::Click, soquette::Function::new(vec![]));
    assert_eq!(t.properties, vec![(s("href"), s("/b"))]);
    assert_eq!(t.listeners.len(), 1);
    let html = Renderer::new(vec![]).render(&t.node()).unwrap().html;
    assert_eq!(html, "<a id=\"t1\" href=\"/b\">go</a>");
}

#[test]
fn compile_component_counts_tags() {
    let m = parser(COUNTER).unwrap();
    let c = compile_component(&m.body[0]).unwrap();
    assert_eq!(tag_ids_in(&c.render_document().unwrap().html).len(), 2);
}

#[test]
fn unresolved_state_fails_rendering() {
    let m = parser("module m component A() { <p>{missing}</p> }").unwrap();
    let c = build_component(&m.body[0]);
    assert!(matches!(c.render(s("i")), Err(EvalError::UnresolvedVariable(_))));
}
