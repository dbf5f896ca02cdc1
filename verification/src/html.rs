//! The markup parser: a forward-only cursor over the input characters and a
//! recursive descent that builds the node tree.
//!
//! The grammar itself is written down as a family of `sp_` specification
//! functions over the character sequence.  Each returns `None` where parsing
//! fails — a structural violation such as a mismatched closing tag, a missing
//! quote, or the end of the input in the middle of a construct — and
//! otherwise the parsed value together with the position just past it.
//! [`parse`] returns a tree exactly when [`spec_parse`] does, and the tree
//! stands for that value.

use vstd::prelude::*;
use vstd::string::StrSliceExecFns;
use vstd::string::StringExecFns;

use crate::chars::{check_class, is_ws_char, lemma_run_len, lemma_run_len_full, run_len, str_equal, CharClass};
use crate::dom::{elem, lemma_nodes_view, lemma_nodes_wf, node_view, node_wf, nodes_view, nodes_wf, text, AttrMap, Node, SpecNode};

verus! {

/// The position just past the white space that starts at `i`.
pub open spec fn ws_end(s: Seq<char>, i: int) -> int {
    i + run_len(s, i, CharClass::Ws)
}

/// The position just past the tag name that starts at `i`.
pub open spec fn tag_end(s: Seq<char>, i: int) -> int {
    i + run_len(s, i, CharClass::TagName)
}

/// The position just past the attribute name that starts at `i`.
pub open spec fn attr_name_end(s: Seq<char>, i: int) -> int {
    i + run_len(s, i, CharClass::AttrName)
}

/// The position of the first `c` at or after `i`, or the end of the input.
pub open spec fn find_char(s: Seq<char>, i: int, c: char) -> int {
    i + run_len(s, i, CharClass::NotChar(c))
}

/// Whether a closing-tag marker `</` stands at `i`.
pub open spec fn close_next(s: Seq<char>, i: int) -> bool {
    i + 2 <= s.len() && s[i] == '<' && s[i + 1] == '/'
}

/// Whether `</` followed by `tag` stands at `i`.
pub open spec fn closes_at(s: Seq<char>, i: int, tag: Seq<char>) -> bool {
    i + 2 + tag.len() <= s.len() && s[i] == '<' && s[i + 1] == '/' && s.subrange(
        i + 2,
        i + 2 + tag.len(),
    ) == tag
}

/// The tags that never have children or a closing tag.
pub open spec fn self_closing(tag: Seq<char>) -> bool {
    tag == "area"@ || tag == "base"@ || tag == "br"@ || tag == "col"@ || tag == "embed"@ || tag
        == "hr"@ || tag == "img"@ || tag == "input"@ || tag == "link"@ || tag == "meta"@ || tag
        == "param"@ || tag == "source"@ || tag == "track"@ || tag == "wbr"@
}

/// A quoted attribute value starting at `i`: an optional lone backslash, an
/// opening `"` or `'`, the value, and the matching closing quote.  Yields
/// the value and the position just past the closing quote.
pub open spec fn sp_attr_value(s: Seq<char>, i: int) -> Option<(Seq<char>, int)> {
    if i >= s.len() {
        None
    } else {
        let i1 = if s[i] == '\\' {
            i + 1
        } else {
            i
        };
        if i1 >= s.len() {
            None
        } else {
            let q = s[i1];
            if q == '"' || q == '\'' {
                let e = find_char(s, i1 + 1, q);
                if e < s.len() {
                    Some((s.subrange(i1 + 1, e), e + 1))
                } else {
                    None
                }
            } else {
                None
            }
        }
    }
}

/// One attribute starting at `i`: a name, then either `=` and a quoted
/// value, or any other single character for a bare name with an empty value.
pub open spec fn sp_attr(s: Seq<char>, i: int) -> Option<((Seq<char>, Seq<char>), int)> {
    let e = attr_name_end(s, i);
    let name = s.subrange(i, e);
    if e >= s.len() {
        None
    } else if s[e] == '=' {
        match sp_attr_value(s, e + 1) {
            None => None,
            Some((v, p)) => Some(((name, v), p)),
        }
    } else {
        Some(((name, Seq::empty()), e + 1))
    }
}

/// The attribute list starting at `i`, accumulated into `m`; stops in front
/// of `>` or `/`.  A repeated name overwrites the earlier value.
pub open spec fn sp_attrs(s: Seq<char>, i: int, m: Map<Seq<char>, Seq<char>>) -> Option<
    (Map<Seq<char>, Seq<char>>, int),
>
    decreases s.len() - i,
{
    let w = ws_end(s, i);
    if w >= s.len() {
        None
    } else if s[w] == '>' || s[w] == '/' {
        Some((m, w))
    } else {
        match sp_attr(s, w) {
            None => None,
            Some(((n, v), p)) => if p > i && p <= s.len() {
                sp_attrs(s, p, m.insert(n, v))
            } else {
                // an attribute always takes at least one character
                None
            },
        }
    }
}

/// The first position at or after `i` where `</` followed by `tag` stands,
/// if there is one.
pub open spec fn sp_find_close(s: Seq<char>, i: int, tag: Seq<char>) -> Option<int>
    decreases s.len() - i,
{
    if closes_at(s, i, tag) {
        Some(i)
    } else if i >= s.len() {
        None
    } else {
        sp_find_close(s, i + 1, tag)
    }
}

/// A closing tag at `i`: `</`, a tag name that must equal `tag`, and `>`.
/// Yields the position just past the `>`.
pub open spec fn sp_close_tag(s: Seq<char>, i: int, tag: Seq<char>) -> Option<int> {
    if i + 2 <= s.len() && s[i] == '<' && s[i + 1] == '/' {
        let e = tag_end(s, i + 2);
        if s.subrange(i + 2, e) == tag && e < s.len() && s[e] == '>' {
            Some(e + 1)
        } else {
            None
        }
    } else {
        None
    }
}

/// Everything up to and including the closing tag for `tag`, skipped
/// verbatim: the scan for the first `</tag`, then the closing tag itself.
pub open spec fn sp_skip_close(s: Seq<char>, i: int, tag: Seq<char>) -> Option<int> {
    match sp_find_close(s, i, tag) {
        None => None,
        Some(j) => sp_close_tag(s, j, tag),
    }
}

/// The node sequence starting at `i`, appended to `acc`: white space is
/// skipped, and the scan stops at the end of the input or in front of a
/// closing-tag marker.  Yields the nodes and the stop position.
pub open spec fn sp_nodes(s: Seq<char>, i: int, acc: Seq<SpecNode>) -> Option<
    (Seq<SpecNode>, int),
>
    decreases s.len() - i, 2int,
{
    let w = ws_end(s, i);
    if w >= s.len() || close_next(s, w) {
        Some((acc, w))
    } else {
        match sp_node(s, w) {
            None => None,
            Some((on, p)) => if p > i && p <= s.len() {
                sp_nodes(
                    s,
                    p,
                    match on {
                        Some(n) => acc.push(n),
                        None => acc,
                    },
                )
            } else {
                // a node always takes at least one character
                None
            },
        }
    }
}

/// One node starting at `i`: an element if a `<` stands there, a text run
/// up to the next `<` otherwise.  A discarded construct yields `None` in
/// the first component.
pub open spec fn sp_node(s: Seq<char>, i: int) -> Option<(Option<SpecNode>, int)>
    decreases s.len() - i, 1int,
{
    if i >= s.len() {
        None
    } else if s[i] == '<' {
        sp_element(s, i)
    } else {
        let e = find_char(s, i, '<');
        Some((Some(SpecNode::Text { content: s.subrange(i, e) }), e))
    }
}

/// An element starting at the `<` at `i`.
///
/// A `<!...>` construct is consumed through the next `>` and discarded; a
/// `script` element is skipped through its closing tag and discarded; a
/// self-closing tag takes its attributes, an optional `/` and `>`, and has
/// no children; every other tag takes `>`, child nodes, and a closing tag
/// whose name must equal the opening one.
pub open spec fn sp_element(s: Seq<char>, i: int) -> Option<(Option<SpecNode>, int)>
    decreases s.len() - i, 0int,
{
    if i >= s.len() || s[i] != '<' {
        None
    } else if i + 1 >= s.len() {
        None
    } else if s[i + 1] == '!' {
        let j = find_char(s, i + 1, '>');
        if j < s.len() {
            Some((None, j + 1))
        } else {
            None
        }
    } else {
        let te = tag_end(s, i + 1);
        let tag = s.subrange(i + 1, te);
        if tag == "script"@ {
            match sp_skip_close(s, te, tag) {
                None => None,
                Some(p) => Some((None, p)),
            }
        } else {
            match sp_attrs(s, te, Map::empty()) {
                None => None,
                Some((am, p)) => if p < i + 1 {
                    // never: the attribute list begins after the tag name
                    None
                } else if self_closing(tag) {
                    if p >= s.len() {
                        None
                    } else {
                        let p2 = if s[p] == '/' {
                            p + 1
                        } else {
                            p
                        };
                        if p2 < s.len() && s[p2] == '>' {
                            Some(
                                (
                                    Some(
                                        SpecNode::Element {
                                            tag,
                                            attrs: am,
                                            children: Seq::empty(),
                                        },
                                    ),
                                    p2 + 1,
                                ),
                            )
                        } else {
                            None
                        }
                    }
                } else {
                    if p < s.len() && s[p] == '>' {
                        match sp_nodes(s, p + 1, Seq::empty()) {
                            None => None,
                            Some((cs, q)) => match sp_close_tag(s, q, tag) {
                                None => None,
                                Some(r) => Some(
                                    (Some(SpecNode::Element { tag, attrs: am, children: cs }), r),
                                ),
                            },
                        }
                    } else {
                        None
                    }
                },
            }
        }
    }
}

/// What a whole document parses to: the top-level nodes, with a single node
/// standing alone and any other number wrapped in a synthetic `html`
/// element with no attributes.  Input after the top-level stop position is
/// ignored.
pub open spec fn spec_parse(s: Seq<char>) -> Option<SpecNode> {
    match sp_nodes(s, 0, Seq::empty()) {
        None => None,
        Some((ns, p)) => if ns.len() == 1 {
            Some(ns[0])
        } else {
            Some(SpecNode::Element { tag: "html"@, attrs: Map::empty(), children: ns })
        },
    }
}

/// The value an optional node stands for.
pub open spec fn opt_node_view(o: Option<Node>) -> Option<SpecNode> {
    match o {
        Some(n) => Some(node_view(n)),
        None => None,
    }
}

/// Whether `tag` is one of the self-closing tags.
fn self_closing_exec(tag: &str) -> (r: bool)
    ensures
        r == self_closing(tag@),
{
    str_equal(tag, "area") || str_equal(tag, "base") || str_equal(tag, "br") || str_equal(
        tag,
        "col",
    ) || str_equal(tag, "embed") || str_equal(tag, "hr") || str_equal(tag, "img") || str_equal(
        tag,
        "input",
    ) || str_equal(tag, "link") || str_equal(tag, "meta") || str_equal(tag, "param") || str_equal(
        tag,
        "source",
    ) || str_equal(tag, "track") || str_equal(tag, "wbr")
}

/// The forward-only cursor: the input characters and the position reached.
/// The position counts characters, so a multi-byte character advances it by
/// one like any other.
struct Parser<'a> {
    input: &'a str,
    length: usize,
    pos: usize,
}

impl<'a> Parser<'a> {
    spec fn wf(self) -> bool {
        self.length == self.input@.len() && self.pos <= self.length
    }

    spec fn same_input(self, other: Parser<'a>) -> bool {
        self.input == other.input && self.length == other.length
    }

    fn eof(&self) -> (r: bool)
        requires
            self.wf(),
        ensures
            r == (self.pos >= self.input@.len()),
    {
        self.pos >= self.length
    }

    fn next_char(&self) -> (c: char)
        requires
            self.wf(),
            self.pos < self.input@.len(),
        ensures
            c == self.input@[self.pos as int],
    {
        self.input.get_char(self.pos)
    }

    fn consume_char(&mut self) -> (c: char)
        requires
            old(self).wf(),
            old(self).pos < old(self).input@.len(),
        ensures
            final(self).wf(),
            final(self).same_input(*old(self)),
            final(self).pos == old(self).pos + 1,
            c == old(self).input@[old(self).pos as int],
    {
        let c = self.input.get_char(self.pos);
        self.pos = self.pos + 1;
        c
    }

    /// Advances past the run of characters of `cl` that starts at the
    /// position.
    fn skip_run(&mut self, cl: CharClass)
        requires
            old(self).wf(),
        ensures
            final(self).wf(),
            final(self).same_input(*old(self)),
            final(self).pos == old(self).pos + run_len(
                old(self).input@,
                old(self).pos as int,
                cl,
            ),
    {
        let ghost s = self.input@;
        let ghost i0 = self.pos as int;
        proof {
            lemma_run_len(s, i0, cl);
        }
        while !self.eof() && check_class(cl, self.next_char())
            invariant
                self.wf(),
                self.same_input(*old(self)),
                self.input@ == s,
                i0 <= self.pos as int <= s.len(),
                i0 + run_len(s, i0, cl) == self.pos + run_len(s, self.pos as int, cl),
            decreases s.len() - self.pos,
        {
            proof {
                assert(run_len(s, self.pos as int, cl) == 1 + run_len(s, self.pos as int + 1, cl));
            }
            self.pos = self.pos + 1;
        }
        proof {
            assert(run_len(s, self.pos as int, cl) == 0);
        }
    }

    /// The characters from `start` up to the position, as a string.
    fn take_from(&self, start: usize) -> (r: String)
        requires
            self.wf(),
            start <= self.pos,
        ensures
            r@ == self.input@.subrange(start as int, self.pos as int),
    {
        self.input.substring_char(start, self.pos).to_owned()
    }

    fn consume_whitespace(&mut self)
        requires
            old(self).wf(),
        ensures
            final(self).wf(),
            final(self).same_input(*old(self)),
            final(self).pos == ws_end(old(self).input@, old(self).pos as int),
    {
        self.skip_run(CharClass::Ws);
    }

    fn parse_tag_name(&mut self) -> (r: String)
        requires
            old(self).wf(),
        ensures
            final(self).wf(),
            final(self).same_input(*old(self)),
            final(self).pos == tag_end(old(self).input@, old(self).pos as int),
            r@ == old(self).input@.subrange(old(self).pos as int, final(self).pos as int),
    {
        let start: usize = self.pos;
        self.skip_run(CharClass::TagName);
        self.take_from(start)
    }

    fn parse_attr_name(&mut self) -> (r: String)
        requires
            old(self).wf(),
        ensures
            final(self).wf(),
            final(self).same_input(*old(self)),
            final(self).pos == attr_name_end(old(self).input@, old(self).pos as int),
            r@ == old(self).input@.subrange(old(self).pos as int, final(self).pos as int),
    {
        let start: usize = self.pos;
        self.skip_run(CharClass::AttrName);
        self.take_from(start)
    }

    /// A text run: everything up to the next `<` or the end of the input,
    /// kept verbatim.
    fn parse_text(&mut self) -> (r: Option<Node>)
        requires
            old(self).wf(),
        ensures
            final(self).wf(),
            final(self).same_input(*old(self)),
            final(self).pos == find_char(old(self).input@, old(self).pos as int, '<'),
            (match r {
                Some(n) => node_wf(n) && node_view(n) == (SpecNode::Text {
                    content: old(self).input@.subrange(
                        old(self).pos as int,
                        final(self).pos as int,
                    ),
                }),
                None => false,
            }),
    {
        let start: usize = self.pos;
        self.skip_run(CharClass::NotChar('<'));
        Some(text(self.take_from(start)))
    }

    /// A quoted attribute value; see [`sp_attr_value`].
    fn parse_attr_value(&mut self) -> (r: Option<String>)
        requires
            old(self).wf(),
        ensures
            final(self).wf(),
            final(self).same_input(*old(self)),
            (match (r, sp_attr_value(old(self).input@, old(self).pos as int)) {
                (Some(val), Some((v, p))) => val@ == v && final(self).pos == p,
                (None, None) => true,
                _ => false,
            }),
            final(self).pos >= old(self).pos,
            r is Some ==> final(self).pos > old(self).pos,
    {
        let ghost s = self.input@;
        if self.eof() {
            return None;
        }
        if self.next_char() == '\\' {
            let _ = self.consume_char();
            if self.eof() {
                return None;
            }
        }
        let ghost i1 = self.pos as int;
        let open_quote = self.consume_char();
        if !(open_quote == '"' || open_quote == '\'') {
            return None;
        }
        let start: usize = self.pos;
        self.skip_run(CharClass::NotChar(open_quote));
        proof {
            lemma_run_len(s, start as int, CharClass::NotChar(open_quote));
        }
        if self.eof() {
            return None;
        }
        let value = self.take_from(start);
        let _ = self.consume_char();
        proof {
            assert(find_char(s, i1 + 1, open_quote) == start + run_len(
                s,
                start as int,
                CharClass::NotChar(open_quote),
            ));
        }
        Some(value)
    }

    /// One attribute; see [`sp_attr`].
    fn parse_attr(&mut self) -> (r: Option<(String, String)>)
        requires
            old(self).wf(),
        ensures
            final(self).wf(),
            final(self).same_input(*old(self)),
            (match (r, sp_attr(old(self).input@, old(self).pos as int)) {
                (Some(nv), Some(((sn, sv), p))) => nv.0@ == sn && nv.1@ == sv && final(self).pos
                    == p,
                (None, None) => true,
                _ => false,
            }),
            final(self).pos >= old(self).pos,
            r is Some ==> final(self).pos > old(self).pos,
    {
        let name = self.parse_attr_name();
        if self.eof() {
            return None;
        }
        let c = self.consume_char();
        if c == '=' {
            match self.parse_attr_value() {
                Some(value) => Some((name, value)),
                None => None,
            }
        } else {
            Some((name, String::new()))
        }
    }

    /// The attribute list in front of `>` or `/`; see [`sp_attrs`].
    fn parse_attributes(&mut self) -> (r: Option<AttrMap>)
        requires
            old(self).wf(),
        ensures
            final(self).wf(),
            final(self).same_input(*old(self)),
            (match (r, sp_attrs(old(self).input@, old(self).pos as int, Map::empty())) {
                (Some(am), Some((m, p))) => am@ == m && final(self).pos == p,
                (None, None) => true,
                _ => false,
            }),
            final(self).pos >= old(self).pos,
    {
        let ghost s = self.input@;
        let ghost i0 = self.pos as int;
        let mut attrs = AttrMap::new();
        loop
            invariant
                self.wf(),
                self.same_input(*old(self)),
                self.input@ == s,
                i0 == old(self).pos as int,
                i0 <= self.pos as int,
                sp_attrs(s, i0, Map::empty()) == sp_attrs(s, self.pos as int, attrs@),
            decreases s.len() - self.pos,
        {
            let ghost i = self.pos as int;
            let ghost m = attrs@;
            self.consume_whitespace();
            if self.eof() {
                return None;
            }
            let c = self.next_char();
            if c == '>' || c == '/' {
                return Some(attrs);
            }
            match self.parse_attr() {
                None => {
                    return None;
                },
                Some((name, value)) => {
                    proof {
                        assert(sp_attrs(s, i, m) == sp_attrs(
                            s,
                            self.pos as int,
                            m.insert(name@, value@),
                        ));
                    }
                    attrs.insert(name, value);
                },
            }
        }
    }

    /// Whether a closing-tag marker `</` stands at the position.
    fn starts_with_close(&self) -> (r: bool)
        requires
            self.wf(),
        ensures
            r == close_next(self.input@, self.pos as int),
    {
        if self.length - self.pos < 2 {
            false
        } else {
            self.input.get_char(self.pos) == '<' && self.input.get_char(self.pos + 1) == '/'
        }
    }

    /// Whether `</` followed by `tag` stands at the position.
    fn closes_here(&self, tag: &String) -> (r: bool)
        requires
            self.wf(),
        ensures
            r == closes_at(self.input@, self.pos as int, tag@),
    {
        let tl: usize = tag.as_str().unicode_len();
        if self.length - self.pos < 2 || tl > self.length - self.pos - 2 {
            return false;
        }
        if !(self.input.get_char(self.pos) == '<' && self.input.get_char(self.pos + 1) == '/') {
            return false;
        }
        let mut j: usize = 0;
        while j < tl
            invariant
                self.wf(),
                tl == tag@.len(),
                self.pos + 2 + tl <= self.input@.len(),
                j <= tl,
                forall|k: int| 0 <= k < j ==> self.input@[self.pos + 2 + k] == tag@[k],
            decreases tl - j,
        {
            if self.input.get_char(self.pos + 2 + j) != tag.as_str().get_char(j) {
                proof {
                    let sub = self.input@.subrange(
                        self.pos + 2,
                        self.pos + 2 + tag@.len() as int,
                    );
                    assert(sub[j as int] != tag@[j as int]);
                }
                return false;
            }
            j = j + 1;
        }
        proof {
            assert(self.input@.subrange(self.pos + 2, self.pos + 2 + tag@.len() as int)
                =~= tag@);
        }
        true
    }

    /// The closing tag for `tag`: `</`, a name that must equal `tag`, `>`.
    fn expect_close_tag(&mut self, tag: &String) -> (r: Option<()>)
        requires
            old(self).wf(),
        ensures
            final(self).wf(),
            final(self).same_input(*old(self)),
            (match (r, sp_close_tag(old(self).input@, old(self).pos as int, tag@)) {
                (Some(_), Some(p)) => final(self).pos == p,
                (None, None) => true,
                _ => false,
            }),
            final(self).pos >= old(self).pos,
    {
        if self.eof() {
            return None;
        }
        if self.consume_char() != '<' {
            return None;
        }
        if self.eof() {
            return None;
        }
        if self.consume_char() != '/' {
            return None;
        }
        let name = self.parse_tag_name();
        if !str_equal(name.as_str(), tag.as_str()) {
            return None;
        }
        if self.eof() {
            return None;
        }
        if self.consume_char() != '>' {
            return None;
        }
        Some(())
    }

    /// Skips everything through the closing tag for `tag`, content kept out
    /// of the tree; see [`sp_skip_close`].
    fn skip_element(&mut self, tag: &String) -> (r: Option<()>)
        requires
            old(self).wf(),
        ensures
            final(self).wf(),
            final(self).same_input(*old(self)),
            (match (r, sp_skip_close(old(self).input@, old(self).pos as int, tag@)) {
                (Some(_), Some(p)) => final(self).pos == p,
                (None, None) => true,
                _ => false,
            }),
            final(self).pos >= old(self).pos,
    {
        let ghost s = self.input@;
        let ghost i0 = self.pos as int;
        while !self.closes_here(tag)
            invariant
                self.wf(),
                self.same_input(*old(self)),
                self.input@ == s,
                i0 == old(self).pos as int,
                i0 <= self.pos as int,
                sp_find_close(s, i0, tag@) == sp_find_close(s, self.pos as int, tag@),
            decreases s.len() - self.pos,
        {
            if self.eof() {
                return None;
            }
            proof {
                assert(sp_find_close(s, self.pos as int, tag@) == sp_find_close(
                    s,
                    self.pos as int + 1,
                    tag@,
                ));
            }
            let _ = self.consume_char();
        }
        proof {
            assert(sp_find_close(s, i0, tag@) == Some(self.pos as int));
        }
        self.expect_close_tag(tag)
    }

    /// An element at a `<`; see [`sp_element`].
    fn parse_element(&mut self) -> (r: Option<Option<Node>>)
        requires
            old(self).wf(),
        ensures
            final(self).wf(),
            final(self).same_input(*old(self)),
            (match (r, sp_element(old(self).input@, old(self).pos as int)) {
                (Some(on), Some((son, p))) => opt_node_view(on) == son && final(self).pos == p,
                (None, None) => true,
                _ => false,
            }),
            (match r {
                Some(Some(n)) => node_wf(n),
                _ => true,
            }),
            final(self).pos >= old(self).pos,
            r is Some ==> final(self).pos > old(self).pos,
        decreases self.length - self.pos, 0int,
    {
        let ghost s = self.input@;
        let ghost i0 = self.pos as int;
        if self.eof() {
            return None;
        }
        if self.consume_char() != '<' {
            return None;
        }
        if self.eof() {
            return None;
        }
        if self.next_char() == '!' {
            self.skip_run(CharClass::NotChar('>'));
            if self.eof() {
                return None;
            }
            let _ = self.consume_char();
            return Some(None);
        }
        let tag_name = self.parse_tag_name();
        proof {
            assert(tag_name@ == s.subrange(i0 + 1, tag_end(s, i0 + 1)));
        }
        if str_equal(tag_name.as_str(), "script") {
            match self.skip_element(&tag_name) {
                Some(_) => {
                    return Some(None);
                },
                None => {
                    return None;
                },
            }
        }
        let attrs = match self.parse_attributes() {
            Some(a) => a,
            None => {
                return None;
            },
        };
        if self_closing_exec(tag_name.as_str()) {
            if self.eof() {
                return None;
            }
            if self.next_char() == '/' {
                let _ = self.consume_char();
            }
            if self.eof() {
                return None;
            }
            if self.consume_char() != '>' {
                return None;
            }
            return Some(Some(elem(tag_name, attrs, Vec::new())));
        }
        if self.eof() {
            return None;
        }
        if self.consume_char() != '>' {
            return None;
        }
        let children = match self.parse_nodes() {
            Some(c) => c,
            None => {
                return None;
            },
        };
        match self.expect_close_tag(&tag_name) {
            Some(_) => {},
            None => {
                return None;
            },
        }
        Some(Some(elem(tag_name, attrs, children)))
    }

    /// One node: an element after a `<`, a text run otherwise; see
    /// [`sp_node`].
    fn parse_node(&mut self) -> (r: Option<Option<Node>>)
        requires
            old(self).wf(),
        ensures
            final(self).wf(),
            final(self).same_input(*old(self)),
            (match (r, sp_node(old(self).input@, old(self).pos as int)) {
                (Some(on), Some((son, p))) => opt_node_view(on) == son && final(self).pos == p,
                (None, None) => true,
                _ => false,
            }),
            (match r {
                Some(Some(n)) => node_wf(n),
                _ => true,
            }),
            final(self).pos >= old(self).pos,
            r is Some ==> final(self).pos > old(self).pos,
        decreases self.length - self.pos, 1int,
    {
        let ghost s = self.input@;
        let ghost i0 = self.pos as int;
        if self.eof() {
            return None;
        }
        if self.next_char() == '<' {
            self.parse_element()
        } else {
            proof {
                assert(run_len(s, i0, CharClass::NotChar('<')) >= 1);
            }
            match self.parse_text() {
                Some(n) => Some(Some(n)),
                None => None,
            }
        }
    }

    /// The node sequence up to the end of the input or a closing-tag
    /// marker; see [`sp_nodes`].
    fn parse_nodes(&mut self) -> (r: Option<Vec<Node>>)
        requires
            old(self).wf(),
        ensures
            final(self).wf(),
            final(self).same_input(*old(self)),
            (match (r, sp_nodes(old(self).input@, old(self).pos as int, Seq::empty())) {
                (Some(nodes), Some((ns, p))) => nodes_view(nodes@) == ns && final(self).pos == p,
                (None, None) => true,
                _ => false,
            }),
            (match r {
                Some(nodes) => nodes_wf(nodes@),
                None => true,
            }),
            final(self).pos >= old(self).pos,
        decreases self.length - self.pos, 2int,
    {
        let ghost s = self.input@;
        let ghost i0 = self.pos as int;
        let mut nodes: Vec<Node> = Vec::new();
        loop
            invariant
                self.wf(),
                self.same_input(*old(self)),
                self.input@ == s,
                i0 == old(self).pos as int,
                i0 <= self.pos as int,
                sp_nodes(s, i0, Seq::empty()) == sp_nodes(s, self.pos as int, nodes_view(nodes@)),
                nodes_wf(nodes@),
            decreases s.len() - self.pos,
        {
            let ghost i = self.pos as int;
            let ghost acc = nodes_view(nodes@);
            self.consume_whitespace();
            if self.eof() {
                return Some(nodes);
            }
            if self.starts_with_close() {
                return Some(nodes);
            }
            match self.parse_node() {
                None => {
                    return None;
                },
                Some(opt_node) => {
                    match opt_node {
                        Some(n) => {
                            let ghost before = nodes@;
                            nodes.push(n);
                            proof {
                                assert(nodes@.drop_last() =~= before);
                                assert(nodes@.last() == n);
                                assert(nodes_view(nodes@) == acc.push(node_view(n)));
                                assert(nodes_wf(nodes@));
                            }
                        },
                        None => {},
                    }
                },
            }
        }
    }
}

/// Parses a whole document: the top-level nodes, a single one standing
/// alone and any other number wrapped in a synthetic `html` element.
///
/// Returns `Some` exactly when [`spec_parse`] accepts the input; `None`
/// means a structural violation somewhere in it — a mismatched closing tag,
/// a missing quote, or the end of the input in the middle of a construct —
/// and no partial tree is handed out.
pub fn parse(source: String) -> (r: Option<Node>)
    ensures
        (match (r, spec_parse(source@)) {
            (Some(n), Some(sn)) => node_view(n) == sn,
            (None, None) => true,
            _ => false,
        }),
        (match r {
            Some(n) => node_wf(n),
            None => true,
        }),
{
    let len: usize = source.as_str().unicode_len();
    let mut parser = Parser { pos: 0, input: source.as_str(), length: len };
    match parser.parse_nodes() {
        None => None,
        Some(mut nodes) => {
            proof {
                lemma_nodes_view(nodes@);
                lemma_nodes_wf(nodes@);
            }
            if nodes.len() == 1 {
                let n = nodes.swap_remove(0);
                Some(n)
            } else {
                Some(elem(String::from_str("html"), AttrMap::new(), nodes))
            }
        },
    }
}

/// A document without `<` whose first character is not white space parses
/// to a single text node holding the input verbatim.  (A document that
/// begins with white space loses that white space to the top-level skip,
/// and an empty or all-white-space document wraps into an `html` element
/// with no children instead.)
pub proof fn lemma_parse_plain_text(s: Seq<char>)
    requires
        s.len() > 0,
        forall|i: int| 0 <= i < s.len() ==> #[trigger] s[i] != '<',
        !is_ws_char(s[0]),
    ensures
        spec_parse(s) == Some(SpecNode::Text { content: s }),
{
    assert(s[0] != '<');
    assert(run_len(s, 0, CharClass::Ws) == 0);
    lemma_run_len_full(s, 0, CharClass::NotChar('<'));
    assert(find_char(s, 0, '<') == s.len());
    assert(s.subrange(0, s.len() as int) =~= s);
    let t = SpecNode::Text { content: s };
    assert(sp_node(s, 0) == Some((Some(t), s.len() as int)));
    assert(run_len(s, s.len() as int, CharClass::Ws) == 0);
    let acc = Seq::<SpecNode>::empty().push(t);
    assert(sp_nodes(s, s.len() as int, acc) == Some((acc, s.len() as int)));
    assert(sp_nodes(s, 0, Seq::empty()) == Some((acc, s.len() as int)));
    assert(acc.len() == 1 && acc[0] == t);
}

} // verus!
