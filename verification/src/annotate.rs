//! The annotation pass: a pre-order traversal that appends one locator
//! attribute, named `dataLocator`, to every markup element's opening tag.
//!
//! The locator of an element is `<fileId>:<line>:<col>` for the line and
//! column of the opening tag's start, taken relative to the program start
//! offset. The traversal is deterministic: a node's element is annotated
//! before its children, and children and sibling nodes are annotated in
//! source order. An element whose relative offset falls outside the
//! position index aborts the pass with `OffsetOutOfRange`.

use vstd::prelude::*;
use crate::locator::{locator_seq, make_locator};
use crate::position::{col_at, line_at, LineColMapping, OffsetOutOfRange};
use crate::tree::{
    attr_lists_node, attr_lists_nodes, clone_attrs, elem_count_node, elem_count_nodes,
    spans_node, spans_nodes, tag_names_node, tag_names_nodes, view_attrs, view_node, view_nodes,
    Attr, AttrV, ElementV, JsxElement, Node, NodeV, Program,
};

verus! {

/// The locator attribute for relative offset `rel` of source `src` in the
/// file named `file`.
pub open spec fn locator_attr_v(file: Seq<char>, src: Seq<char>, rel: int) -> AttrV {
    AttrV { name: "dataLocator"@, value: locator_seq(file, line_at(src, rel), col_at(src, rel)) }
}

/// The first offending offset in an element's subtree, in pre-order:
/// `e.span_lo` itself when it precedes `start`, the relative offset when it
/// lies beyond the index (whose length is `src.len() + 1`), else the first
/// offending offset among the children. `None` when every element in the
/// subtree is in range.
pub open spec fn first_bad_element(e: ElementV, src: Seq<char>, start: int) -> Option<int>
    decreases e, 1nat,
{
    if e.span_lo < start {
        Some(e.span_lo)
    } else if e.span_lo - start > src.len() {
        Some(e.span_lo - start)
    } else {
        first_bad_nodes(e.children, src, start)
    }
}

/// The first offending offset in a node's subtree, in pre-order.
pub open spec fn first_bad_node(n: NodeV, src: Seq<char>, start: int) -> Option<int>
    decreases n, 0nat,
{
    match n {
        NodeV::Element(e) => first_bad_element(e, src, start),
        NodeV::Other(children) => first_bad_nodes(children, src, start),
    }
}

/// The first offending offset in a forest, in pre-order.
pub open spec fn first_bad_nodes(ns: Seq<NodeV>, src: Seq<char>, start: int) -> Option<int>
    decreases ns, 1nat,
{
    if ns.len() == 0 {
        None
    } else if first_bad_node(ns[0], src, start) is Some {
        first_bad_node(ns[0], src, start)
    } else {
        first_bad_nodes(ns.drop_first(), src, start)
    }
}

/// The annotated element: the same element with the locator attribute for
/// its opening tag's relative offset appended to its attribute list, and
/// every element among its children annotated likewise.
pub open spec fn annotate_element_v(e: ElementV, src: Seq<char>, start: int, file: Seq<char>) -> ElementV
    decreases e, 1nat,
{
    ElementV {
        name: e.name,
        span_lo: e.span_lo,
        span_hi: e.span_hi,
        attrs: e.attrs.push(locator_attr_v(file, src, e.span_lo - start)),
        children: annotate_nodes_v(e.children, src, start, file),
    }
}

/// The annotated node.
pub open spec fn annotate_node_v(n: NodeV, src: Seq<char>, start: int, file: Seq<char>) -> NodeV
    decreases n, 0nat,
{
    match n {
        NodeV::Element(e) => NodeV::Element(annotate_element_v(e, src, start, file)),
        NodeV::Other(children) => NodeV::Other(annotate_nodes_v(children, src, start, file)),
    }
}

/// The annotated forest, in order.
pub open spec fn annotate_nodes_v(ns: Seq<NodeV>, src: Seq<char>, start: int, file: Seq<char>) -> Seq<
    NodeV,
>
    decreases ns, 1nat,
{
    if ns.len() == 0 {
        Seq::<NodeV>::empty()
    } else {
        seq![annotate_node_v(ns[0], src, start, file)] + annotate_nodes_v(
            ns.drop_first(),
            src,
            start,
            file,
        )
    }
}

/// Annotates one element's subtree: appends the locator attribute to the
/// element itself, then to every element among its children, in pre-order.
/// Fails with the subtree's first offending offset if one exists, leaving
/// no claim on the tree (the caller discards it).
pub fn annotate_element(e: &JsxElement, m: &LineColMapping, start: usize, file_id: &str) -> (r:
    Result<JsxElement, OffsetOutOfRange>)
    requires
        m.wf(),
    ensures
        first_bad_element(e@, m.src(), start as int) is None ==> (r matches Ok(ee) && ee@
            == annotate_element_v(e@, m.src(), start as int, file_id@)),
        first_bad_element(e@, m.src(), start as int) matches Some(off) ==> (r matches Err(er)
            && er.offset == off),
    decreases e, 1nat,
{
    if e.span_lo < start {
        return Err(OffsetOutOfRange { offset: e.span_lo });
    }
    let rel: usize = e.span_lo - start;
    if rel >= m.len() {
        return Err(OffsetOutOfRange { offset: rel });
    }
    let lc = match m.lookup(rel) {
        Ok(lc) => lc,
        Err(er) => {
            proof {
                assert(false);
            }
            return Err(er);
        },
    };
    let mut attrs = clone_attrs(&e.attrs);
    attrs.push(Attr { name: String::from_str("dataLocator"), value: make_locator(file_id, lc.line, lc.col) });
    let children = match annotate_nodes(&e.children, m, start, file_id) {
        Ok(c) => c,
        Err(er) => {
            return Err(er);
        },
    };
    let ee = JsxElement {
        name: e.name.clone(),
        span_lo: e.span_lo,
        span_hi: e.span_hi,
        attrs,
        children,
    };
    proof {
        assert(view_attrs(ee.attrs@) =~= e@.attrs.push(
            locator_attr_v(file_id@, m.src(), rel as int),
        ));
        assert(ee@ =~~= annotate_element_v(e@, m.src(), start as int, file_id@));
    }
    Ok(ee)
}

/// Annotates one node's subtree, in pre-order.
pub fn annotate_node(n: &Node, m: &LineColMapping, start: usize, file_id: &str) -> (r: Result<
    Node,
    OffsetOutOfRange,
>)
    requires
        m.wf(),
    ensures
        first_bad_node(n@, m.src(), start as int) is None ==> (r matches Ok(nn) && nn@
            == annotate_node_v(n@, m.src(), start as int, file_id@)),
        first_bad_node(n@, m.src(), start as int) matches Some(off) ==> (r matches Err(er)
            && er.offset == off),
    decreases n, 0nat,
{
    match n {
        Node::Element(e) => {
            match annotate_element(e, m, start, file_id) {
                Ok(ee) => Ok(Node::Element(ee)),
                Err(er) => Err(er),
            }
        },
        Node::Other(children) => {
            match annotate_nodes(children, m, start, file_id) {
                Ok(cs) => Ok(Node::Other(cs)),
                Err(er) => Err(er),
            }
        },
    }
}

/// Annotates a forest of sibling nodes, in source order.
pub fn annotate_nodes(ns: &Vec<Node>, m: &LineColMapping, start: usize, file_id: &str) -> (r:
    Result<Vec<Node>, OffsetOutOfRange>)
    requires
        m.wf(),
    ensures
        first_bad_nodes(view_nodes(ns@), m.src(), start as int) is None ==> (r matches Ok(nns)
            && view_nodes(nns@) == annotate_nodes_v(
            view_nodes(ns@),
            m.src(),
            start as int,
            file_id@,
        )),
        first_bad_nodes(view_nodes(ns@), m.src(), start as int) matches Some(off) ==> (r matches
            Err(er) && er.offset == off),
    decreases ns@, 1nat,
{
    let ghost vs = view_nodes(ns@);
    proof {
        crate::tree::lemma_view_nodes_index(ns@);
    }
    let mut out: Vec<Node> = Vec::new();
    let mut i: usize = 0;
    while i < ns.len()
        invariant
            m.wf(),
            i <= ns@.len(),
            vs == view_nodes(ns@),
            vs.len() == ns@.len(),
            forall|j: int| 0 <= j < ns@.len() ==> vs[j] == view_node(ns@[j]),
            first_bad_nodes(vs.subrange(0, i as int), m.src(), start as int) is None,
            view_nodes(out@) == annotate_nodes_v(
                vs.subrange(0, i as int),
                m.src(),
                start as int,
                file_id@,
            ),
        decreases ns@.len() - i,
    {
        let ghost pre = vs.subrange(0, i as int);
        let ghost out_pre = out@;
        match annotate_node(&ns[i], m, start, file_id) {
            Ok(c) => {
                out.push(c);
                proof {
                    assert(vs.subrange(0, i + 1 as int) =~= pre.push(vs[i as int]));
                    lemma_first_bad_nodes_snoc(pre, vs[i as int], m.src(), start as int);
                    lemma_annotate_nodes_v_snoc(pre, vs[i as int], m.src(), start as int, file_id@);
                    lemma_view_nodes_snoc(out_pre, c);
                }
            },
            Err(er) => {
                proof {
                    let tail = vs.subrange(i as int, vs.len() as int);
                    assert(vs =~= pre + tail);
                    lemma_first_bad_nodes_concat(pre, tail, m.src(), start as int);
                    assert(tail[0] == vs[i as int]);
                    assert(tail.drop_first() =~= vs.subrange(i + 1, vs.len() as int));
                }
                return Err(er);
            },
        }
        i = i + 1;
    }
    proof {
        assert(vs.subrange(0, ns@.len() as int) =~= vs);
    }
    Ok(out)
}

/// The traversal state of one annotation pass: the position index of the
/// unit's source text, the unit's start offset, and the file id that every
/// locator names.
pub struct AddLocatorVisitor {
    line_col_mapping: LineColMapping,
    start_pos: usize,
    file_id: String,
}

impl AddLocatorVisitor {
    /// The position index this visitor queries.
    pub closed spec fn mapping(self) -> LineColMapping {
        self.line_col_mapping
    }

    /// The program start offset in effect; set from the program's span on
    /// entry to `visit_mut_program`.
    pub closed spec fn start(self) -> int {
        self.start_pos as int
    }

    /// The file id every locator of this visitor names.
    pub closed spec fn file(self) -> Seq<char> {
        self.file_id@
    }

    /// Makes a visitor over the given position index. The file id is the
    /// constant `file`; deriving a real one is the caller's business.
    pub fn new(line_col_mapping: LineColMapping) -> (r: Self)
        ensures
            r.mapping() == line_col_mapping,
            r.start() == 0,
            r.file() == "file"@,
    {
        AddLocatorVisitor { line_col_mapping, start_pos: 0, file_id: String::from_str("file") }
    }

    /// Annotates a whole program in place: takes the program's own start
    /// offset as the base, then appends one locator attribute to every
    /// element, in pre-order. On failure the first offending offset is
    /// returned and the program is left unchanged.
    pub fn visit_mut_program(&mut self, n: &mut Program) -> (r: Result<(), OffsetOutOfRange>)
        requires
            old(self).mapping().wf(),
        ensures
            final(self).mapping() == old(self).mapping(),
            final(self).file() == old(self).file(),
            final(self).start() == old(n)@.span_lo,
            first_bad_nodes(old(n)@.nodes, old(self).mapping().src(), old(n)@.span_lo)
                is None ==> (r matches Ok(u) && final(n)@.span_lo == old(n)@.span_lo
                && final(n)@.nodes == annotate_nodes_v(
                old(n)@.nodes,
                old(self).mapping().src(),
                old(n)@.span_lo,
                old(self).file(),
            )),
            first_bad_nodes(old(n)@.nodes, old(self).mapping().src(), old(n)@.span_lo) matches Some(
                off,
            ) ==> (r matches Err(er) && er.offset == off && *final(n) == *old(n)),
    {
        self.start_pos = n.span_lo;
        match annotate_nodes(&n.nodes, &self.line_col_mapping, self.start_pos, self.file_id.as_str()) {
            Ok(new_nodes) => {
                n.nodes = new_nodes;
                Ok(())
            },
            Err(er) => Err(er),
        }
    }

    /// Annotates one element's subtree in place, against the start offset
    /// set by the last `visit_mut_program` call. On failure the subtree's
    /// first offending offset is returned and the element is left unchanged.
    pub fn visit_mut_jsx_element(&mut self, jsx: &mut JsxElement) -> (r: Result<
        (),
        OffsetOutOfRange,
    >)
        requires
            old(self).mapping().wf(),
        ensures
            *final(self) == *old(self),
            first_bad_element(old(jsx)@, old(self).mapping().src(), old(self).start())
                is None ==> (r matches Ok(u) && final(jsx)@ == annotate_element_v(
                old(jsx)@,
                old(self).mapping().src(),
                old(self).start(),
                old(self).file(),
            )),
            first_bad_element(old(jsx)@, old(self).mapping().src(), old(self).start()) matches Some(
                off,
            ) ==> (r matches Err(er) && er.offset == off && *final(jsx) == *old(jsx)),
    {
        match annotate_element(jsx, &self.line_col_mapping, self.start_pos, self.file_id.as_str()) {
            Ok(ee) => {
                *jsx = ee;
                Ok(())
            },
            Err(er) => Err(er),
        }
    }
}

/// Annotates a program against its source text: builds the position index,
/// takes the program's own start offset as the base, and appends one
/// locator attribute per element, in pre-order, with file id `file`. The
/// same tree is handed back, annotated; an element whose relative offset
/// lies outside `[0, source.len()]` aborts the pass with that offset
/// instead.
pub fn process(program: Program, source: &str) -> (r: Result<Program, OffsetOutOfRange>)
    requires
        source@.len() < usize::MAX,
    ensures
        first_bad_nodes(program@.nodes, source@, program@.span_lo) is None ==> (r matches Ok(p)
            && p@.span_lo == program@.span_lo && p@.nodes == annotate_nodes_v(
            program@.nodes,
            source@,
            program@.span_lo,
            "file"@,
        )),
        first_bad_nodes(program@.nodes, source@, program@.span_lo) matches Some(off) ==> (r matches
            Err(er) && er.offset == off),
{
    let line_col_mapping = LineColMapping::new(source);
    let mut visitor = AddLocatorVisitor::new(line_col_mapping);
    let mut p = program;
    match visitor.visit_mut_program(&mut p) {
        Ok(u) => Ok(p),
        Err(er) => Err(er),
    }
}

/// Annotation preserves a forest's structure and appends exactly one
/// attribute per element: the element count, every tag name and every span
/// are unchanged, and each element's attribute list afterwards is its old
/// list — order and values intact — with the locator attribute for that
/// element's relative offset appended at the end. Listings are in
/// pre-order.
pub proof fn lemma_annotate_preserves_structure_nodes(
    ns: Seq<NodeV>,
    src: Seq<char>,
    start: int,
    file: Seq<char>,
)
    ensures
        elem_count_nodes(annotate_nodes_v(ns, src, start, file)) == elem_count_nodes(ns),
        tag_names_nodes(annotate_nodes_v(ns, src, start, file)) == tag_names_nodes(ns),
        spans_nodes(annotate_nodes_v(ns, src, start, file)) == spans_nodes(ns),
        attr_lists_nodes(annotate_nodes_v(ns, src, start, file)).len() == attr_lists_nodes(
            ns,
        ).len(),
        forall|j: int|
            0 <= j < attr_lists_nodes(ns).len() ==> attr_lists_nodes(
                annotate_nodes_v(ns, src, start, file),
            )[j] == attr_lists_nodes(ns)[j].push(
                locator_attr_v(file, src, spans_nodes(ns)[j] - start),
            ),
    decreases ns, 1nat,
{
    if ns.len() > 0 {
        let a = ns[0];
        let rest = ns.drop_first();
        lemma_annotate_preserves_structure_node(a, src, start, file);
        lemma_annotate_preserves_structure_nodes(rest, src, start, file);
        crate::tree::lemma_preorder_lens_node(a);
        crate::tree::lemma_preorder_lens_nodes(rest);
        let a2 = annotate_node_v(a, src, start, file);
        let rest2 = annotate_nodes_v(rest, src, start, file);
        let anns = annotate_nodes_v(ns, src, start, file);
        assert(anns == seq![a2] + rest2);
        assert(anns[0] == a2);
        assert(anns.drop_first() =~= rest2);
        assert(tag_names_nodes(anns) == tag_names_node(a2) + tag_names_nodes(rest2));
        assert(spans_nodes(anns) == spans_node(a2) + spans_nodes(rest2));
        assert(attr_lists_nodes(anns) == attr_lists_node(a2) + attr_lists_nodes(rest2));
        let al_a = attr_lists_node(a);
        let al_b = attr_lists_nodes(rest);
        assert forall|j: int| 0 <= j < attr_lists_nodes(ns).len() implies attr_lists_nodes(
            anns,
        )[j] == attr_lists_nodes(ns)[j].push(
            locator_attr_v(file, src, spans_nodes(ns)[j] - start),
        ) by {
            assert(attr_lists_nodes(ns)[j] == (al_a + al_b)[j]);
            assert(spans_nodes(ns)[j] == (spans_node(a) + spans_nodes(rest))[j]);
            if j < al_a.len() {
                assert(attr_lists_node(a2)[j] == al_a[j].push(
                    locator_attr_v(file, src, spans_node(a)[j] - start),
                ));
            } else {
                let k = j - al_a.len();
                assert(attr_lists_nodes(rest2)[k] == al_b[k].push(
                    locator_attr_v(file, src, spans_nodes(rest)[k] - start),
                ));
            }
        }
    }
}

/// Annotation preserves a subtree's structure and appends exactly one
/// attribute per element, as `lemma_annotate_preserves_structure_nodes`
/// states for a forest.
pub proof fn lemma_annotate_preserves_structure_node(
    n: NodeV,
    src: Seq<char>,
    start: int,
    file: Seq<char>,
)
    ensures
        elem_count_node(annotate_node_v(n, src, start, file)) == elem_count_node(n),
        tag_names_node(annotate_node_v(n, src, start, file)) == tag_names_node(n),
        spans_node(annotate_node_v(n, src, start, file)) == spans_node(n),
        attr_lists_node(annotate_node_v(n, src, start, file)).len() == attr_lists_node(n).len(),
        forall|j: int|
            0 <= j < attr_lists_node(n).len() ==> attr_lists_node(
                annotate_node_v(n, src, start, file),
            )[j] == attr_lists_node(n)[j].push(
                locator_attr_v(file, src, spans_node(n)[j] - start),
            ),
    decreases n, 0nat,
{
    match n {
        NodeV::Element(e) => {
            lemma_annotate_preserves_structure_nodes(e.children, src, start, file);
            crate::tree::lemma_preorder_lens_nodes(e.children);
            let kids2 = annotate_nodes_v(e.children, src, start, file);
            let a = annotate_node_v(n, src, start, file);
            assert(attr_lists_node(a) == seq![
                e.attrs.push(locator_attr_v(file, src, e.span_lo - start)),
            ] + attr_lists_nodes(kids2));
            assert(spans_node(n) == seq![e.span_lo] + spans_nodes(e.children));
            assert forall|j: int| 0 <= j < attr_lists_node(n).len() implies attr_lists_node(
                a,
            )[j] == attr_lists_node(n)[j].push(
                locator_attr_v(file, src, spans_node(n)[j] - start),
            ) by {
                if j == 0 {
                    assert(attr_lists_node(n)[0] == e.attrs);
                    assert(spans_node(n)[0] == e.span_lo);
                    assert(attr_lists_node(a)[0] == e.attrs.push(
                        locator_attr_v(file, src, e.span_lo - start),
                    ));
                } else {
                    let k = j - 1;
                    assert(attr_lists_node(n)[j] == attr_lists_nodes(e.children)[k]);
                    assert(spans_node(n)[j] == spans_nodes(e.children)[k]);
                    assert(attr_lists_node(a)[j] == attr_lists_nodes(kids2)[k]);
                }
            }
        },
        NodeV::Other(children) => {
            lemma_annotate_preserves_structure_nodes(children, src, start, file);
        },
    }
}

/// Annotation leaves every span where it was, so a second pass over an
/// annotated forest resolves exactly the offsets the first did: its first
/// offending offset is unchanged.
pub proof fn lemma_annotate_preserves_first_bad_nodes(
    ns: Seq<NodeV>,
    src: Seq<char>,
    start: int,
    file: Seq<char>,
)
    ensures
        first_bad_nodes(annotate_nodes_v(ns, src, start, file), src, start) == first_bad_nodes(
            ns,
            src,
            start,
        ),
    decreases ns, 1nat,
{
    if ns.len() > 0 {
        lemma_annotate_preserves_first_bad_node(ns[0], src, start, file);
        lemma_annotate_preserves_first_bad_nodes(ns.drop_first(), src, start, file);
        let anns = annotate_nodes_v(ns, src, start, file);
        assert(anns[0] == annotate_node_v(ns[0], src, start, file));
        assert(anns.drop_first() =~= annotate_nodes_v(ns.drop_first(), src, start, file));
    }
}

/// As `lemma_annotate_preserves_first_bad_nodes`, for one subtree.
pub proof fn lemma_annotate_preserves_first_bad_node(
    n: NodeV,
    src: Seq<char>,
    start: int,
    file: Seq<char>,
)
    ensures
        first_bad_node(annotate_node_v(n, src, start, file), src, start) == first_bad_node(
            n,
            src,
            start,
        ),
    decreases n, 0nat,
{
    match n {
        NodeV::Element(e) => {
            lemma_annotate_preserves_first_bad_nodes(e.children, src, start, file);
        },
        NodeV::Other(children) => {
            lemma_annotate_preserves_first_bad_nodes(children, src, start, file);
        },
    }
}

/// Annotating an already-annotated forest appends a second locator
/// attribute to every element rather than replacing the first: after two
/// passes each element carries its original attributes, in order, followed
/// by the same locator attribute twice; the element count is unchanged and
/// the second pass resolves exactly the offsets the first did.
pub proof fn lemma_reannotate_appends(ns: Seq<NodeV>, src: Seq<char>, start: int, file: Seq<char>)
    ensures
        ({
            let once = annotate_nodes_v(ns, src, start, file);
            let twice = annotate_nodes_v(once, src, start, file);
            &&& first_bad_nodes(once, src, start) == first_bad_nodes(ns, src, start)
            &&& elem_count_nodes(twice) == elem_count_nodes(ns)
            &&& attr_lists_nodes(twice).len() == attr_lists_nodes(ns).len()
            &&& forall|j: int|
                0 <= j < attr_lists_nodes(ns).len() ==> attr_lists_nodes(twice)[j]
                    == attr_lists_nodes(ns)[j].push(
                    locator_attr_v(file, src, spans_nodes(ns)[j] - start),
                ).push(locator_attr_v(file, src, spans_nodes(ns)[j] - start))
        }),
{
    let once = annotate_nodes_v(ns, src, start, file);
    lemma_annotate_preserves_first_bad_nodes(ns, src, start, file);
    lemma_annotate_preserves_structure_nodes(ns, src, start, file);
    lemma_annotate_preserves_structure_nodes(once, src, start, file);
}

/// Splitting a forest splits its first offending offset: the combined
/// forest's first offending offset is `a`'s if `a` has one, else `b`'s.
proof fn lemma_first_bad_nodes_concat(a: Seq<NodeV>, b: Seq<NodeV>, src: Seq<char>, start: int)
    ensures
        first_bad_nodes(a + b, src, start) == if first_bad_nodes(a, src, start) is Some {
            first_bad_nodes(a, src, start)
        } else {
            first_bad_nodes(b, src, start)
        },
    decreases a.len(),
{
    if a.len() == 0 {
        assert(a + b =~= b);
    } else {
        lemma_first_bad_nodes_concat(a.drop_first(), b, src, start);
        assert((a + b)[0] == a[0]);
        assert((a + b).drop_first() =~= a.drop_first() + b);
    }
}

/// Appending one node extends the forest's first offending offset check.
proof fn lemma_first_bad_nodes_snoc(a: Seq<NodeV>, x: NodeV, src: Seq<char>, start: int)
    ensures
        first_bad_nodes(a.push(x), src, start) == if first_bad_nodes(a, src, start) is Some {
            first_bad_nodes(a, src, start)
        } else {
            first_bad_node(x, src, start)
        },
{
    assert(a.push(x) =~= a + seq![x]);
    lemma_first_bad_nodes_concat(a, seq![x], src, start);
    assert(seq![x][0] == x);
    assert(seq![x].drop_first() =~= Seq::<NodeV>::empty());
    assert(first_bad_nodes(Seq::<NodeV>::empty(), src, start) is None);
    assert(first_bad_nodes(seq![x], src, start) == first_bad_node(x, src, start));
}

/// An annotated forest has as many nodes as the forest.
proof fn lemma_annotate_nodes_v_len(ns: Seq<NodeV>, src: Seq<char>, start: int, file: Seq<char>)
    ensures
        annotate_nodes_v(ns, src, start, file).len() == ns.len(),
    decreases ns.len(),
{
    if ns.len() > 0 {
        lemma_annotate_nodes_v_len(ns.drop_first(), src, start, file);
    }
}

/// Appending one node appends its annotation.
proof fn lemma_annotate_nodes_v_snoc(a: Seq<NodeV>, x: NodeV, src: Seq<char>, start: int, file: Seq<char>)
    ensures
        annotate_nodes_v(a.push(x), src, start, file) == annotate_nodes_v(a, src, start, file).push(
            annotate_node_v(x, src, start, file),
        ),
    decreases a.len(),
{
    lemma_annotate_nodes_v_len(a, src, start, file);
    lemma_annotate_nodes_v_len(a.push(x), src, start, file);
    if a.len() == 0 {
        assert(a.push(x)[0] == x);
        assert(a.push(x).drop_first() =~= Seq::<NodeV>::empty());
        assert(annotate_nodes_v(a.push(x), src, start, file) =~= annotate_nodes_v(
            a,
            src,
            start,
            file,
        ).push(annotate_node_v(x, src, start, file)));
    } else {
        lemma_annotate_nodes_v_snoc(a.drop_first(), x, src, start, file);
        lemma_annotate_nodes_v_len(a.drop_first(), src, start, file);
        assert(a.push(x)[0] == a[0]);
        assert(a.push(x).drop_first() =~= a.drop_first().push(x));
        assert(annotate_nodes_v(a.push(x), src, start, file) =~= annotate_nodes_v(
            a,
            src,
            start,
            file,
        ).push(annotate_node_v(x, src, start, file)));
    }
}

/// Appending one node appends its view.
proof fn lemma_view_nodes_snoc(a: Seq<Node>, x: Node)
    ensures
        view_nodes(a.push(x)) == view_nodes(a).push(view_node(x)),
    decreases a.len(),
{
    crate::tree::lemma_view_nodes_index(a);
    crate::tree::lemma_view_nodes_index(a.push(x));
    if a.len() == 0 {
        assert(a.push(x)[0] == x);
        assert(a.push(x).drop_first() =~= Seq::<Node>::empty());
        assert(view_nodes(a.push(x)) =~= view_nodes(a).push(view_node(x)));
    } else {
        lemma_view_nodes_snoc(a.drop_first(), x);
        crate::tree::lemma_view_nodes_index(a.drop_first());
        assert(a.push(x)[0] == a[0]);
        assert(a.push(x).drop_first() =~= a.drop_first().push(x));
        assert(view_nodes(a.push(x)) =~= view_nodes(a).push(view_node(x)));
    }
}

} // verus!
