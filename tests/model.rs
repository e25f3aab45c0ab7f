use soquette::parser::{HTMLTag, Node as ParsedNode};
use soquette::value::find_variable;
use soquette::{Component, EventType, Expression, Function, Node, Statement, Tag, Value};

fn s(x: &str) -> String {
    x.to_string()
}

#[test]
fn component_new_collects_expressions_listeners_and_refs() {
    let inner = Tag::new(s("b1"), s("button"), vec![Node::Text(s("go")), Expression::Variable(s("n")).into_node()])
        .listener(EventType::Click, Function::new(vec![Statement::Assignment(s("n"), Expression::Literal(Value::Number(2)))]));
    let root = Tag::new(s("d1"), s("div"), vec![inner.node(), Node::Fragment(vec![Node::Expression(Expression::Variable(s("n")))])]);
    let c = Component::new(vec![(s("n"), Value::Number(1))], root.node());
    assert!(c.stateful);
    assert_eq!(c.exprs.len(), 2);
    assert_eq!((c.exprs[0].0.as_str(), c.exprs[0].1, c.exprs[0].2.as_str()), ("b1", 1, "this.n"));
    assert_eq!((c.exprs[1].0.as_str(), c.exprs[1].1, c.exprs[1].2.as_str()), ("d1", 1, "this.n"));
    assert_eq!(c.listeners.len(), 1);
    assert_eq!(c.listeners[0].0, "b1");
    assert_eq!(c.listeners[0].1.listener.js(), "() => {this.n = 2;}");
    assert_eq!(c.refs, vec![s("b1"), s("d1")]);
    let html = c.render(s("x")).unwrap().html;
    assert_eq!(
        html,
        "<div id=\"d1\" data-instance=\"x\"><button id=\"b1\" data-instance=\"x\">go\n1</button>\n1</div>"
    );
}

#[test]
fn top_level_expression_is_not_tracked() {
    let c = Component::new(vec![(s("n"), Value::Number(1))], Node::Expression(Expression::Variable(s("n"))));
    assert_eq!(c.exprs.len(), 0);
    assert_eq!(c.refs.len(), 0);
    assert_eq!(c.render_document().unwrap().html, "1");
}

#[test]
fn stateless_component_has_nothing_tracked() {
    let c = Component::stateless(Tag::new(s("t"), s("p"), vec![]).node());
    assert!(c.exprs.is_empty() && c.listeners.is_empty() && c.refs.is_empty() && c.state.is_empty());
    let class = c.generate_class();
    assert_eq!(
        class,
        format!(
            "class {} {{\n\n\nconstructor(instanceID) {{\nthis.instanceID = instanceID;\n\n\n}}\n\nrefresh() {{\n\n}}\n\n\n}}\n",
            c.id
        )
    );
}

#[test]
fn variables_are_found_by_first_entry() {
    let ctx = vec![(s("a"), Value::Number(1)), (s("b"), Value::String(s("x"))), (s("a"), Value::Number(3))];
    assert_eq!(find_variable(&ctx, &s("a")).unwrap().text(), "1");
    assert_eq!(find_variable(&ctx, &s("b")).unwrap().text(), "x");
    assert!(find_variable(&ctx, &s("c")).is_none());
}

#[test]
fn parsed_tag_constructor_and_tag_count() {
    let leaf = HTMLTag::new(s("p"), vec![ParsedNode::Text(s("t"))], vec![(s("k"), s("v"))]);
    let root = HTMLTag::new(s("div"), vec![ParsedNode::Tag(leaf), ParsedNode::Empty], vec![]);
    assert_eq!(root.children.len(), 2);
    assert_eq!(soquette::builder::count_tags(&ParsedNode::Tag(root)), Some(2));
    assert_eq!(soquette::builder::count_tags(&ParsedNode::Empty), Some(0));
}

#[test]
fn state_declarations_become_initial_state() {
    let m = soquette::parser("module m component A() { state a = 1 state b = x state a = 2 }").unwrap();
    let c = soquette::build_component(&m.body[0]);
    assert_eq!(c.state.len(), 2);
    assert_eq!(c.state[0].0, "a");
    assert_eq!(c.state[0].1.text(), "2");
    assert_eq!(c.state[1].0, "b");
    assert_eq!(c.state[1].1.js(), "this.x");
    assert!(matches!(c.tree, Node::Empty));
}
