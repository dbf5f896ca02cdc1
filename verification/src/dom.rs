//! The node tree a parsed document turns into: text runs and elements with a
//! tag, an attribute mapping and an ordered sequence of children.

use vstd::prelude::*;

use vstd::string::StrSliceExecFns;

use crate::chars::{lemma_run_len, lemma_run_len_in_suffix, run_len, CharClass};

verus! {

broadcast use vstd::std_specs::vec::group_vec_axioms;

/// The mathematical shape of a node: the value the executable tree stands
/// for, with strings as character sequences and attributes as a mapping.
pub enum SpecNode {
    Text { content: Seq<char> },
    Element { tag: Seq<char>, attrs: Map<Seq<char>, Seq<char>>, children: Seq<SpecNode> },
}

/// An attribute mapping: names to values, names unique.  A repeated
/// insertion overwrites the earlier value.
#[derive(Debug)]
pub struct AttrMap {
    pairs: Vec<(String, String)>,
}

/// The mapping an ordered list of pairs stands for, later pairs winning.
spec fn assoc_view(pairs: Seq<(String, String)>) -> Map<Seq<char>, Seq<char>>
    decreases pairs.len(),
{
    if pairs.len() == 0 {
        Map::empty()
    } else {
        assoc_view(pairs.drop_last()).insert(pairs.last().0@, pairs.last().1@)
    }
}

spec fn unique_keys(pairs: Seq<(String, String)>) -> bool {
    forall|i: int, j: int|
        0 <= i < j < pairs.len() ==> #[trigger] pairs[i].0@ != #[trigger] pairs[j].0@
}

proof fn lemma_assoc_view_dom(pairs: Seq<(String, String)>)
    ensures
        forall|k: Seq<char>|
            #[trigger] assoc_view(pairs).contains_key(k) <==> exists|i: int|
                0 <= i < pairs.len() && #[trigger] pairs[i].0@ == k,
    decreases pairs.len(),
{
    if pairs.len() > 0 {
        let dl = pairs.drop_last();
        lemma_assoc_view_dom(dl);
        assert forall|k: Seq<char>| #[trigger]
            assoc_view(pairs).contains_key(k) implies exists|i: int|
            0 <= i < pairs.len() && #[trigger] pairs[i].0@ == k by {
            if k == pairs.last().0@ {
                assert(pairs[pairs.len() - 1].0@ == k);
            } else {
                assert(assoc_view(dl).contains_key(k));
                let i = choose|i: int| 0 <= i < dl.len() && #[trigger] dl[i].0@ == k;
                assert(dl[i] == pairs[i]);
                assert(pairs[i].0@ == k);
            }
        }
        assert forall|k: Seq<char>|
            exists|i: int|
                0 <= i < pairs.len() && #[trigger] pairs[i].0@ == k implies #[trigger] assoc_view(
            pairs,
        ).contains_key(k) by {
            let i = choose|i: int| 0 <= i < pairs.len() && #[trigger] pairs[i].0@ == k;
            if i < pairs.len() - 1 {
                assert(dl[i] == pairs[i]);
                assert(dl[i].0@ == k);
                assert(assoc_view(dl).contains_key(k));
            }
        }
    }
}

proof fn lemma_assoc_view_get(pairs: Seq<(String, String)>)
    requires
        unique_keys(pairs),
    ensures
        forall|i: int|
            0 <= i < pairs.len() ==> assoc_view(pairs).contains_key(#[trigger] pairs[i].0@)
                && assoc_view(pairs)[pairs[i].0@] == pairs[i].1@,
    decreases pairs.len(),
{
    if pairs.len() > 0 {
        assert(unique_keys(pairs.drop_last()));
        lemma_assoc_view_get(pairs.drop_last());
        assert forall|i: int| 0 <= i < pairs.len() implies assoc_view(pairs).contains_key(
            #[trigger] pairs[i].0@,
        ) && assoc_view(pairs)[pairs[i].0@] == pairs[i].1@ by {
            if i < pairs.len() - 1 {
                assert(pairs.drop_last()[i].0@ == pairs[i].0@);
                assert(pairs[i].0@ != pairs.last().0@);
            }
        }
    }
}

proof fn lemma_assoc_view_card(pairs: Seq<(String, String)>)
    requires
        unique_keys(pairs),
    ensures
        assoc_view(pairs).dom().finite(),
        assoc_view(pairs).dom().len() == pairs.len(),
    decreases pairs.len(),
{
    if pairs.len() > 0 {
        assert(unique_keys(pairs.drop_last()));
        lemma_assoc_view_card(pairs.drop_last());
        lemma_assoc_view_dom(pairs.drop_last());
        assert(!assoc_view(pairs.drop_last()).contains_key(pairs.last().0@));
        assert(assoc_view(pairs).dom() =~= assoc_view(pairs.drop_last()).dom().insert(
            pairs.last().0@,
        ));
    }
}

proof fn lemma_assoc_view_remove(pairs: Seq<(String, String)>, i: int)
    requires
        unique_keys(pairs),
        0 <= i < pairs.len(),
    ensures
        assoc_view(pairs.remove(i)) == assoc_view(pairs).remove(pairs[i].0@),
    decreases pairs.len(),
{
    let k = pairs[i].0@;
    if i == pairs.len() - 1 {
        assert(pairs.remove(i) =~= pairs.drop_last());
        lemma_assoc_view_dom(pairs.drop_last());
        assert(!assoc_view(pairs.drop_last()).contains_key(k));
        assert(assoc_view(pairs.drop_last()) =~= assoc_view(pairs).remove(k));
    } else {
        let dl = pairs.drop_last();
        assert(unique_keys(dl));
        lemma_assoc_view_remove(dl, i);
        assert(pairs.remove(i).drop_last() =~= dl.remove(i));
        assert(pairs.remove(i).last() == pairs.last());
        assert(assoc_view(pairs.remove(i)) == assoc_view(dl.remove(i)).insert(
            pairs.last().0@,
            pairs.last().1@,
        ));
        assert(pairs.last().0@ != k);
        assert(assoc_view(dl).remove(k).insert(pairs.last().0@, pairs.last().1@)
            =~= assoc_view(dl).insert(pairs.last().0@, pairs.last().1@).remove(k));
    }
}

impl View for AttrMap {
    type V = Map<Seq<char>, Seq<char>>;

    closed spec fn view(&self) -> Map<Seq<char>, Seq<char>> {
        assoc_view(self.pairs@)
    }
}

impl AttrMap {
    #[verifier::type_invariant]
    spec fn wf(self) -> bool {
        unique_keys(self.pairs@)
    }

    /// An empty mapping.
    pub fn new() -> (r: AttrMap)
        ensures
            r@ == Map::<Seq<char>, Seq<char>>::empty(),
    {
        AttrMap { pairs: Vec::new() }
    }

    /// How many attributes the mapping holds.
    pub fn len(&self) -> (n: usize)
        ensures
            self@.dom().finite(),
            n == self@.dom().len(),
    {
        proof {
            use_type_invariant(self);
            lemma_assoc_view_card(self.pairs@);
        }
        self.pairs.len()
    }

    fn find(&self, name: &str) -> (r: Option<usize>)
        ensures
            match r {
                Some(i) => i < self.pairs@.len() && self.pairs@[i as int].0@ == name@,
                None => forall|i: int|
                    0 <= i < self.pairs@.len() ==> #[trigger] self.pairs@[i].0@ != name@,
            },
    {
        let key = name.to_owned();
        let n: usize = self.pairs.len();
        let mut i: usize = 0;
        while i < n
            invariant
                n == self.pairs@.len(),
                i <= n,
                key@ == name@,
                forall|j: int| 0 <= j < i ==> #[trigger] self.pairs@[j].0@ != name@,
            decreases n - i,
        {
            if self.pairs[i].0 == key {
                return Some(i);
            }
            i = i + 1;
        }
        None
    }

    /// The value under `name`, if the mapping holds that attribute.
    pub fn get<'a>(&'a self, name: &str) -> (r: Option<&'a String>)
        ensures
            match r {
                Some(v) => self@.contains_key(name@) && v@ == self@[name@],
                None => !self@.contains_key(name@),
            },
    {
        proof {
            use_type_invariant(self);
            lemma_assoc_view_dom(self.pairs@);
            lemma_assoc_view_get(self.pairs@);
        }
        match self.find(name) {
            Some(i) => Some(&self.pairs[i].1),
            None => None,
        }
    }

    /// Puts `value` under `name`; an earlier value under the same name is
    /// overwritten.
    pub fn insert(&mut self, name: String, value: String)
        ensures
            final(self)@ == old(self)@.insert(name@, value@),
    {
        proof {
            use_type_invariant(&*self);
        }
        let ghost n_spec = name@;
        let ghost v_spec = value@;
        let ghost p0 = self.pairs@;
        let found = self.find(name.as_str());
        let mut p: Vec<(String, String)> = Vec::new();
        core::mem::swap(&mut p, &mut self.pairs);
        match found {
            Some(i) => {
                proof {
                    lemma_assoc_view_remove(p0, i as int);
                }
                p.remove(i);
                proof {
                    assert forall|a: int, b: int|
                        0 <= a < b < p@.len() implies #[trigger] p@[a].0@ != #[trigger] p@[b].0@ by {
                        let a0: int = if a < i { a } else { a + 1 };
                        let b0: int = if b < i { b } else { b + 1 };
                        assert(p@[a] == p0[a0]);
                        assert(p@[b] == p0[b0]);
                    }
                    assert forall|j: int| 0 <= j < p@.len() implies #[trigger] p@[j].0@
                        != n_spec by {
                        let j0: int = if j < i { j } else { j + 1 };
                        assert(p@[j] == p0[j0]);
                        if j0 < i {
                            assert(p0[j0].0@ != p0[i as int].0@);
                        } else {
                            assert(p0[i as int].0@ != p0[j0].0@);
                        }
                    }
                    assert(assoc_view(p@).insert(n_spec, v_spec) =~= assoc_view(p0).insert(
                        n_spec,
                        v_spec,
                    ));
                }
            },
            None => {},
        }
        let ghost p1 = p@;
        proof {
            assert(unique_keys(p1));
            assert(forall|j: int| 0 <= j < p1.len() ==> #[trigger] p1[j].0@ != n_spec);
            assert(assoc_view(p1).insert(n_spec, v_spec) == assoc_view(p0).insert(n_spec, v_spec));
        }
        p.push((name, value));
        self.pairs = p;
        proof {
            assert(self.pairs@.drop_last() =~= p1);
            assert(self.pairs@.last().0@ == n_spec && self.pairs@.last().1@ == v_spec);
            assert(assoc_view(self.pairs@) == assoc_view(p1).insert(n_spec, v_spec));
            assert(self@ == old(self)@.insert(n_spec, v_spec));
        }
    }
}

/// Tag name and attributes of an element node.
#[derive(Debug)]
pub struct ElementData {
    pub tag: String,
    pub attrs: AttrMap,
}

/// What a node is: a run of text, or an element.
#[derive(Debug)]
pub enum NodeType {
    Text(String),
    Element(ElementData),
}

/// A tree element: its kind and its children in document order.  A text
/// node never has children.
#[derive(Debug)]
pub struct Node {
    pub node_type: NodeType,
    pub children: Vec<Node>,
}

/// The values a sequence of nodes stands for, in order.
pub open spec fn nodes_view(ns: Seq<Node>) -> Seq<SpecNode>
    decreases ns,
{
    if ns.len() == 0 {
        Seq::empty()
    } else {
        nodes_view(ns.drop_last()).push(node_view(ns.last()))
    }
}

/// The value a node stands for.
pub open spec fn node_view(n: Node) -> SpecNode
    decreases n,
    via node_view_decreases
{
    match n.node_type {
        NodeType::Text(s) => SpecNode::Text { content: s@ },
        NodeType::Element(ed) => SpecNode::Element {
            tag: ed.tag@,
            attrs: ed.attrs@,
            children: nodes_view(n.children@),
        },
    }
}

#[via_fn]
proof fn node_view_decreases(n: Node) {
    assert(decreases_to!(n => n.children));
    assert(decreases_to!(n.children => n.children@));
}

/// `nodes_view` is the element-wise image of `node_view`.
pub proof fn lemma_nodes_view(ns: Seq<Node>)
    ensures
        nodes_view(ns).len() == ns.len(),
        forall|i: int| 0 <= i < ns.len() ==> nodes_view(ns)[i] == node_view(#[trigger] ns[i]),
    decreases ns.len(),
{
    if ns.len() > 0 {
        let dl = ns.drop_last();
        lemma_nodes_view(dl);
        assert forall|i: int| 0 <= i < ns.len() implies nodes_view(ns)[i] == node_view(
            #[trigger] ns[i],
        ) by {
            if i < ns.len() - 1 {
                assert(dl[i] == ns[i]);
                assert(nodes_view(ns)[i] == nodes_view(dl)[i]);
            }
        }
    }
}

/// Whether every node of the sequence is well formed.
pub open spec fn nodes_wf(ns: Seq<Node>) -> bool
    decreases ns,
{
    ns.len() == 0 || (nodes_wf(ns.drop_last()) && node_wf(ns.last()))
}

/// A well-formed tree: a text node never has children.  Every tree the
/// parser hands out is well formed.
pub open spec fn node_wf(n: Node) -> bool
    decreases n,
    via node_wf_decreases
{
    (match n.node_type {
        NodeType::Text(_) => n.children@.len() == 0,
        NodeType::Element(_) => true,
    }) && nodes_wf(n.children@)
}

#[via_fn]
proof fn node_wf_decreases(n: Node) {
    assert(decreases_to!(n => n.children));
    assert(decreases_to!(n.children => n.children@));
}

/// A well-formed sequence is well formed member by member.
pub proof fn lemma_nodes_wf(ns: Seq<Node>)
    requires
        nodes_wf(ns),
    ensures
        forall|i: int| 0 <= i < ns.len() ==> node_wf(#[trigger] ns[i]),
    decreases ns.len(),
{
    if ns.len() > 0 {
        let dl = ns.drop_last();
        lemma_nodes_wf(dl);
        assert forall|i: int| 0 <= i < ns.len() implies node_wf(#[trigger] ns[i]) by {
            if i < ns.len() - 1 {
                assert(dl[i] == ns[i]);
            }
        }
    }
}

/// Wraps a tag name, attributes and children into an element node.  No
/// validation happens here; the grammar is the parser's business.
pub fn elem(name: String, attrs: AttrMap, children: Vec<Node>) -> (r: Node)
    ensures
        node_view(r) == (SpecNode::Element {
            tag: name@,
            attrs: attrs@,
            children: nodes_view(children@),
        }),
        node_wf(r) == nodes_wf(children@),
{
    Node { children, node_type: NodeType::Element(ElementData { tag: name, attrs }) }
}

/// Wraps a string into a text node with no children.
pub fn text(data: String) -> (r: Node)
    ensures
        node_view(r) == (SpecNode::Text { content: data@ }),
        r.children@.len() == 0,
        node_wf(r),
{
    Node { children: Vec::new(), node_type: NodeType::Text(data) }
}

/// The tokens of a class list: the pieces between single spaces, in
/// order, empty pieces included.
pub open spec fn split_spaces(s: Seq<char>) -> Seq<Seq<char>>
    decreases s.len(),
{
    let d: int = run_len(s, 0, CharClass::NotChar(' ')) as int;
    if d >= s.len() {
        seq![s]
    } else {
        seq![s.subrange(0, d)] + split_spaces(s.subrange(d + 1, s.len() as int))
    }
}

fn split_spaces_exec(s: &str) -> (r: Vec<String>)
    ensures
        r.deep_view() == split_spaces(s@),
{
    let len: usize = s.unicode_len();
    let mut tokens: Vec<String> = Vec::new();
    let mut pos: usize = 0;
    proof {
        assert(s@.subrange(0, len as int) =~= s@);
        assert(tokens.deep_view() =~= Seq::<Seq<char>>::empty());
        assert(split_spaces(s@) =~= tokens.deep_view() + split_spaces(s@.subrange(0, len as int)));
    }
    loop
        invariant
            pos <= len,
            len == s@.len(),
            split_spaces(s@) == tokens.deep_view() + split_spaces(
                s@.subrange(pos as int, len as int),
            ),
        decreases len - pos,
    {
        let ghost base = pos as int;
        let ghost suf = s@.subrange(base, len as int);
        let ghost toks0 = tokens.deep_view();
        let start: usize = pos;
        while pos < len && s.get_char(pos) != ' '
            invariant
                start <= pos <= len,
                len == s@.len(),
                start == base,
                run_len(s@, base, CharClass::NotChar(' ')) == (pos - start) + run_len(
                    s@,
                    pos as int,
                    CharClass::NotChar(' '),
                ),
            decreases len - pos,
        {
            proof {
                assert(run_len(s@, pos as int, CharClass::NotChar(' ')) == 1 + run_len(
                    s@,
                    pos as int + 1,
                    CharClass::NotChar(' '),
                ));
            }
            pos = pos + 1;
        }
        proof {
            assert(run_len(s@, pos as int, CharClass::NotChar(' ')) == 0);
            lemma_run_len(s@, base, CharClass::NotChar(' '));
            lemma_run_len_in_suffix(s@, base, base, CharClass::NotChar(' '));
        }
        let token = s.substring_char(start, pos).to_owned();
        let ghost d: int = run_len(suf, 0, CharClass::NotChar(' ')) as int;
        proof {
            assert(d == pos - base);
            assert(token@ =~= suf.subrange(0, d));
        }
        tokens.push(token);
        proof {
            assert(tokens.deep_view() =~= toks0.push(token@));
        }
        if pos >= len {
            proof {
                assert(d >= suf.len());
                assert(token@ =~= suf);
                assert(split_spaces(suf) == seq![suf]);
                assert(toks0 + seq![suf] =~= tokens.deep_view());
            }
            return tokens;
        }
        proof {
            assert(d < suf.len());
            assert(split_spaces(suf) == seq![suf.subrange(0, d)] + split_spaces(
                suf.subrange(d + 1, suf.len() as int),
            ));
            assert(suf.subrange(d + 1, suf.len() as int) =~= s@.subrange(
                pos as int + 1,
                len as int,
            ));
            assert(toks0 + split_spaces(suf) =~= tokens.deep_view() + split_spaces(
                s@.subrange(pos as int + 1, len as int),
            ));
        }
        pos = pos + 1;
    }
}

impl ElementData {
    /// The value of the `id` attribute, if present.
    pub fn id(&self) -> (r: Option<&String>)
        ensures
            match r {
                Some(v) => self.attrs@.contains_key("id"@) && v@ == self.attrs@["id"@],
                None => !self.attrs@.contains_key("id"@),
            },
    {
        self.attrs.get("id")
    }

    /// The tokens of the `class` attribute, split on single spaces: their
    /// set is the element's class set.  The tokens come in order and with
    /// duplicates kept; an absent attribute gives no tokens.
    pub fn classes(&self) -> (r: Vec<String>)
        ensures
            self.attrs@.contains_key("class"@) ==> r.deep_view() == split_spaces(
                self.attrs@["class"@],
            ),
            !self.attrs@.contains_key("class"@) ==> r@.len() == 0,
    {
        match self.attrs.get("class") {
            Some(class_list) => split_spaces_exec(class_list.as_str()),
            None => Vec::new(),
        }
    }
}

} // verus!
