use swc_jsx::annotate::{process, AddLocatorVisitor};
use swc_jsx::locator::make_locator;
use swc_jsx::position::{LineColMapping, OffsetOutOfRange};
use swc_jsx::tree::{Attr, JsxElement, Node, Program};

fn attr(name: &str, value: &str) -> Attr {
    Attr { name: name.to_string(), value: value.to_string() }
}

fn elem(name: &str, span_lo: usize, span_hi: usize, attrs: Vec<Attr>, children: Vec<Node>) -> JsxElement {
    JsxElement { name: name.to_string(), span_lo, span_hi, attrs, children }
}

fn first_element(p: &Program) -> &JsxElement {
    match &p.nodes[0] {
        Node::Element(e) => e,
        Node::Other(_) => panic!("expected an element"),
    }
}

#[test]
fn locator_string_is_colon_separated_decimal() {
    assert_eq!(make_locator("file", 1, 10), "file:1:10");
    assert_eq!(make_locator("f", 0, 0), "f:0:0");
    assert_eq!(make_locator("file", 12, 305), "file:12:305");
}

#[test]
fn element_on_first_line_gets_line_one_and_its_column() {
    // const x = <div />; with the opening tag at offset 10
    let source = "const x = <div />;";
    let program = Program {
        span_lo: 0,
        nodes: vec![Node::Other(vec![Node::Element(elem("div", 10, 16, vec![], vec![]))])],
    };
    let annotated = process(program, source).unwrap();
    let e = match &annotated.nodes[0] {
        Node::Other(children) => match &children[0] {
            Node::Element(e) => e,
            Node::Other(_) => panic!("expected an element"),
        },
        Node::Element(_) => panic!("expected the wrapping construct"),
    };
    assert_eq!(e.attrs, vec![attr("dataLocator", "file:1:10")]);
}

#[test]
fn element_after_a_newline_gets_line_two_column_zero() {
    let source = "a\n<div/>";
    let program = Program {
        span_lo: 0,
        nodes: vec![Node::Element(elem("div", 2, 8, vec![], vec![]))],
    };
    let annotated = process(program, source).unwrap();
    let e = first_element(&annotated);
    assert_eq!(e.attrs, vec![attr("dataLocator", "file:2:0")]);
}

#[test]
fn program_start_offset_rebases_spans() {
    // Spans are absolute; a unit starting at 100 maps offset 101 to column 1.
    let source = "x<a/>";
    let program = Program {
        span_lo: 100,
        nodes: vec![Node::Element(elem("a", 101, 105, vec![], vec![]))],
    };
    let annotated = process(program, source).unwrap();
    let e = first_element(&annotated);
    assert_eq!(e.attrs, vec![attr("dataLocator", "file:1:1")]);
}

#[test]
fn nested_elements_each_get_their_own_locator() {
    let source = "<a>\n  <b/>\n</a>";
    let inner = Node::Element(elem("b", 6, 10, vec![], vec![]));
    let program = Program {
        span_lo: 0,
        nodes: vec![Node::Element(elem("a", 0, 15, vec![], vec![inner]))],
    };
    let annotated = process(program, source).unwrap();
    let outer = first_element(&annotated);
    assert_eq!(outer.name, "a");
    assert_eq!(outer.attrs, vec![attr("dataLocator", "file:1:0")]);
    match &outer.children[0] {
        Node::Element(e) => {
            assert_eq!(e.name, "b");
            assert_eq!(e.attrs, vec![attr("dataLocator", "file:2:2")]);
        }
        Node::Other(_) => panic!("expected the nested element"),
    }
}

#[test]
fn preexisting_attributes_keep_their_order_and_values() {
    let source = "<a/>";
    let program = Program {
        span_lo: 0,
        nodes: vec![Node::Element(elem(
            "a",
            0,
            4,
            vec![attr("class", "x"), attr("id", "y")],
            vec![],
        ))],
    };
    let annotated = process(program, source).unwrap();
    let e = first_element(&annotated);
    assert_eq!(
        e.attrs,
        vec![attr("class", "x"), attr("id", "y"), attr("dataLocator", "file:1:0")]
    );
    assert_eq!(e.span_lo, 0);
    assert_eq!(e.span_hi, 4);
}

#[test]
fn annotating_twice_appends_a_second_locator() {
    let source = "<a/>";
    let program = Program {
        span_lo: 0,
        nodes: vec![Node::Element(elem("a", 0, 4, vec![], vec![]))],
    };
    let once = process(program, source).unwrap();
    let twice = process(once, source).unwrap();
    let e = first_element(&twice);
    assert_eq!(
        e.attrs,
        vec![attr("dataLocator", "file:1:0"), attr("dataLocator", "file:1:0")]
    );
}

#[test]
fn span_before_program_start_fails_with_that_span() {
    let source = "<a/>";
    let program = Program {
        span_lo: 10,
        nodes: vec![Node::Element(elem("a", 4, 8, vec![], vec![]))],
    };
    assert_eq!(process(program, source), Err(OffsetOutOfRange { offset: 4 }));
}

#[test]
fn relative_offset_beyond_the_index_fails_with_that_offset() {
    // The index of a 4-character source accepts offsets 0 through 4 only.
    let source = "<a/>";
    let program = Program {
        span_lo: 0,
        nodes: vec![Node::Element(elem("a", 5, 9, vec![], vec![]))],
    };
    assert_eq!(process(program, source), Err(OffsetOutOfRange { offset: 5 }));
}

#[test]
fn failure_reports_the_first_bad_element_in_preorder() {
    let source = "<a><b/></a>";
    let bad_inner = Node::Element(elem("b", 90, 95, vec![], vec![]));
    let program = Program {
        span_lo: 0,
        nodes: vec![
            Node::Element(elem("a", 0, 11, vec![], vec![bad_inner])),
            Node::Element(elem("c", 80, 85, vec![], vec![])),
        ],
    };
    assert_eq!(process(program, source), Err(OffsetOutOfRange { offset: 90 }));
}

#[test]
fn non_element_nodes_are_left_alone() {
    let source = "text";
    let program = Program { span_lo: 0, nodes: vec![Node::Other(vec![]), Node::Other(vec![])] };
    let annotated = process(program, source).unwrap();
    assert_eq!(annotated.nodes, vec![Node::Other(vec![]), Node::Other(vec![])]);
}

#[test]
fn visitor_annotates_a_program_in_place() {
    let source = "a\n<div/>";
    let mapping = LineColMapping::new(source);
    let mut visitor = AddLocatorVisitor::new(mapping);
    let mut program = Program {
        span_lo: 0,
        nodes: vec![Node::Element(elem("div", 2, 8, vec![], vec![]))],
    };
    assert_eq!(visitor.visit_mut_program(&mut program), Ok(()));
    let e = first_element(&program);
    assert_eq!(e.attrs, vec![attr("dataLocator", "file:2:0")]);
}

#[test]
fn visitor_annotates_one_element_subtree_in_place() {
    let source = "<a><b/></a>";
    let mapping = LineColMapping::new(source);
    let mut visitor = AddLocatorVisitor::new(mapping);
    let inner = Node::Element(elem("b", 3, 7, vec![], vec![]));
    let mut jsx = elem("a", 0, 11, vec![], vec![inner]);
    assert_eq!(visitor.visit_mut_jsx_element(&mut jsx), Ok(()));
    assert_eq!(jsx.attrs, vec![attr("dataLocator", "file:1:0")]);
    match &jsx.children[0] {
        Node::Element(e) => assert_eq!(e.attrs, vec![attr("dataLocator", "file:1:3")]),
        Node::Other(_) => panic!("expected the nested element"),
    }
}

#[test]
fn visitor_failure_leaves_the_program_unchanged() {
    let source = "<a/>";
    let mapping = LineColMapping::new(source);
    let mut visitor = AddLocatorVisitor::new(mapping);
    let mut program = Program {
        span_lo: 0,
        nodes: vec![Node::Element(elem("a", 9, 13, vec![attr("k", "v")], vec![]))],
    };
    assert_eq!(
        visitor.visit_mut_program(&mut program),
        Err(OffsetOutOfRange { offset: 9 })
    );
    let e = first_element(&program);
    assert_eq!(e.attrs, vec![attr("k", "v")]);
}

#[test]
fn sentinel_offset_at_end_of_source_is_accepted() {
    // A span starting exactly at the source length resolves to the sentinel.
    let source = "ab";
    let program = Program {
        span_lo: 0,
        nodes: vec![Node::Element(elem("a", 2, 2, vec![], vec![]))],
    };
    let annotated = process(program, source).unwrap();
    let e = first_element(&annotated);
    assert_eq!(e.attrs, vec![attr("dataLocator", "file:1:2")]);
}
