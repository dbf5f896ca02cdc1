//! The text extractor: flattens a node tree into plain text.  Text content
//! is kept verbatim in document order, and each element hangs a separator
//! of its own after its flattened content — a blank line for block tags, a
//! space for inline tags, nothing for the rest.

use vstd::prelude::*;
use vstd::string::StrSliceExecFns;
use vstd::string::StringExecFns;

use crate::chars::str_equal;
use crate::dom::{
    lemma_nodes_view, lemma_nodes_wf, node_view, node_wf, nodes_view, nodes_wf, Node, NodeType,
    SpecNode,
};

verus! {

broadcast use vstd::std_specs::vec::group_vec_axioms, vstd::seq::group_seq_axioms;

/// The separator a tag hangs after its flattened content: a blank line
/// after `div`, `p`, `ul` and every tag whose name starts with `h`; a
/// space after `a` and `span`; nothing after any other tag.
pub open spec fn sep_for(tag: Seq<char>) -> Seq<char> {
    if tag == "div"@ || tag == "p"@ || tag == "ul"@ {
        "\n\n"@
    } else if tag.len() > 0 && tag[0] == 'h' {
        "\n\n"@
    } else if tag == "a"@ || tag == "span"@ {
        " "@
    } else {
        Seq::empty()
    }
}

/// The flattened text of a tree.
pub open spec fn extracted(n: SpecNode) -> Seq<char>
    decreases n,
{
    match n {
        SpecNode::Text { content } => content,
        SpecNode::Element { tag, attrs, children } => extracted_all(children) + sep_for(tag),
    }
}

/// The concatenated flattened texts of a sequence of trees, in order.
pub open spec fn extracted_all(ns: Seq<SpecNode>) -> Seq<char>
    decreases ns,
{
    if ns.len() == 0 {
        Seq::empty()
    } else {
        extracted_all(ns.drop_last()) + extracted(ns.last())
    }
}

/// Flattens `node` onto the end of `out`, and returns everything
/// accumulated so far as the walk's result.
pub fn get_text_content(node: &Node, out: &mut String) -> (r: String)
    requires
        node_wf(*node),
    ensures
        final(out)@ == old(out)@ + extracted(node_view(*node)),
        r@ == final(out)@,
    decreases *node,
{
    let ghost pre = (match &node.node_type {
        NodeType::Text(c) => c@,
        NodeType::Element(_) => Seq::<char>::empty(),
    });
    match &node.node_type {
        NodeType::Text(content) => {
            out.append(content.as_str());
        },
        NodeType::Element(_) => {},
    }
    let ghost nv = nodes_view(node.children@);
    proof {
        lemma_nodes_view(node.children@);
        lemma_nodes_wf(node.children@);
        assert(nv.take(0) =~= Seq::<SpecNode>::empty());
        assert(out@ =~= old(out)@ + pre + extracted_all(nv.take(0)));
    }
    let n: usize = node.children.len();
    let mut idx: usize = 0;
    while idx < n
        invariant
            node_wf(*node),
            nv == nodes_view(node.children@),
            nodes_wf(node.children@),
            n == node.children@.len(),
            idx <= n,
            pre == (match &node.node_type {
                NodeType::Text(c) => c@,
                NodeType::Element(_) => Seq::<char>::empty(),
            }),
            out@ == old(out)@ + pre + extracted_all(nv.take(idx as int)),
        decreases n - idx,
    {
        proof {
            lemma_nodes_view(node.children@);
            lemma_nodes_wf(node.children@);
            assert(decreases_to!(*node => node.children));
            assert(decreases_to!(node.children => node.children@));
            assert(decreases_to!(node.children@ => node.children@[idx as int]));
        }
        let child = &node.children[idx];
        let _ = get_text_content(child, out);
        proof {
            assert(node_view(*child) == nv[idx as int]);
            assert(nv.take(idx as int + 1).drop_last() =~= nv.take(idx as int));
            assert(nv.take(idx as int + 1).last() == nv[idx as int]);
            assert(extracted_all(nv.take(idx as int + 1)) == extracted_all(nv.take(idx as int))
                + extracted(nv[idx as int]));
            assert(out@ =~= old(out)@ + pre + extracted_all(nv.take(idx as int + 1)));
        }
        idx = idx + 1;
    }
    proof {
        assert(nv.take(n as int) =~= nv);
    }
    match &node.node_type {
        NodeType::Element(data) => {
            let tag = data.tag.as_str();
            if str_equal(tag, "div") || str_equal(tag, "p") || str_equal(tag, "ul") {
                out.append("\n\n");
            } else if tag.unicode_len() > 0 && tag.get_char(0) == 'h' {
                out.append("\n\n");
            } else if str_equal(tag, "a") || str_equal(tag, "span") {
                out.append(" ");
            } else {
                proof {
                    assert(sep_for(data.tag@) == Seq::<char>::empty());
                }
            }
            proof {
                assert(out@ =~= old(out)@ + (extracted_all(nv) + sep_for(data.tag@)));
                assert(out@ =~= old(out)@ + extracted(node_view(*node)));
            }
        },
        NodeType::Text(_) => {
            proof {
                assert(node.children@.len() == 0);
                assert(nv.len() == 0);
                assert(extracted_all(nv) == Seq::<char>::empty());
                assert(out@ =~= old(out)@ + extracted(node_view(*node)));
            }
        },
    }
    out.clone()
}

/// Flattening is deterministic: the text is a function of the tree alone,
/// so two walks of the same tree yield the same text.
pub proof fn lemma_extract_deterministic(n: SpecNode, first: Seq<char>, second: Seq<char>)
    requires
        first == extracted(n),
        second == extracted(n),
    ensures
        first == second,
{
}

/// An element around a single child flattens to the child's text followed
/// by the element's own separator.
pub proof fn lemma_wrap_one(tag: Seq<char>, attrs: Map<Seq<char>, Seq<char>>, child: SpecNode)
    ensures
        extracted(SpecNode::Element { tag, attrs, children: seq![child] }) == extracted(child)
            + sep_for(tag),
{
    let ns = seq![child];
    assert(ns.len() == 1);
    assert(ns.drop_last() =~= Seq::<SpecNode>::empty());
    assert(extracted_all(Seq::<SpecNode>::empty()) == Seq::<char>::empty());
    assert(ns.last() == child);
    assert(extracted_all(ns) == extracted_all(ns.drop_last()) + extracted(ns.last()));
    assert(extracted_all(ns) == Seq::<char>::empty() + extracted(child));
    assert(Seq::<char>::empty() + extracted(child) =~= extracted(child));
}

/// A `div` around a single text flattens to the text followed by a blank
/// line.
pub proof fn lemma_block_spacing(attrs: Map<Seq<char>, Seq<char>>, t: Seq<char>)
    ensures
        extracted(
            SpecNode::Element {
                tag: "div"@,
                attrs,
                children: seq![SpecNode::Text { content: t }],
            },
        ) == t + "\n\n"@,
{
    lemma_wrap_one("div"@, attrs, SpecNode::Text { content: t });
}

/// An `a` or a `span` around a single text flattens to the text followed
/// by one space.
pub proof fn lemma_inline_spacing(attrs: Map<Seq<char>, Seq<char>>, t: Seq<char>)
    ensures
        extracted(
            SpecNode::Element { tag: "a"@, attrs, children: seq![SpecNode::Text { content: t }] },
        ) == t + " "@,
        extracted(
            SpecNode::Element {
                tag: "span"@,
                attrs,
                children: seq![SpecNode::Text { content: t }],
            },
        ) == t + " "@,
{
    reveal_strlit("a");
    reveal_strlit("span");
    reveal_strlit("div");
    reveal_strlit("p");
    reveal_strlit("ul");
    assert("a"@.len() == 1 && "a"@[0] == 'a');
    assert("div"@.len() == 3);
    assert("p"@.len() == 1 && "p"@[0] == 'p');
    assert("ul"@.len() == 2);
    assert(sep_for("a"@) == " "@);
    lemma_wrap_one("a"@, attrs, SpecNode::Text { content: t });
    lemma_wrap_one("span"@, attrs, SpecNode::Text { content: t });
}

/// A tag with no separator of its own leaves the wrapped text alone.
pub proof fn lemma_no_spacing(tag: Seq<char>, attrs: Map<Seq<char>, Seq<char>>, t: Seq<char>)
    requires
        tag != "div"@,
        tag != "p"@,
        tag != "ul"@,
        !(tag.len() > 0 && tag[0] == 'h'),
        tag != "a"@,
        tag != "span"@,
    ensures
        extracted(SpecNode::Element { tag, attrs, children: seq![SpecNode::Text { content: t }] })
            == t,
{
    lemma_wrap_one(tag, attrs, SpecNode::Text { content: t });
    assert(t + Seq::<char>::empty() =~= t);
}

/// Two nested block elements each hang their own separator: the inner text
/// appears once, followed by the inner blank line and then the outer one.
pub proof fn lemma_nested_blocks(
    outer_attrs: Map<Seq<char>, Seq<char>>,
    inner_attrs: Map<Seq<char>, Seq<char>>,
    t: Seq<char>,
)
    ensures
        extracted(
            SpecNode::Element {
                tag: "div"@,
                attrs: outer_attrs,
                children: seq![
                    SpecNode::Element {
                        tag: "div"@,
                        attrs: inner_attrs,
                        children: seq![SpecNode::Text { content: t }],
                    }
                ],
            },
        ) == t + "\n\n"@ + "\n\n"@,
{
    let inner = SpecNode::Element {
        tag: "div"@,
        attrs: inner_attrs,
        children: seq![SpecNode::Text { content: t }],
    };
    lemma_block_spacing(inner_attrs, t);
    lemma_wrap_one("div"@, outer_attrs, inner);
}

} // verus!
