//! The document tree: nodes, attribute maps, and read-only traversal.
//!
//! Each executable type has a mathematical view: `Node` is seen as a
//! `SpecNode` whose text is a `Seq<char>` and whose attribute map is a
//! `Map<Seq<char>, Seq<char>>`. All contracts speak over these views.

use vstd::prelude::*;
use vstd::pervasive::arbitrary;

verus! {

broadcast use vstd::std_specs::vec::group_vec_axioms;

/// Mathematical view of an element: its tag name and attribute map.
#[verifier::ext_equal]
pub struct SpecElementData {
    pub tag_name: Seq<char>,
    pub attributes: Map<Seq<char>, Seq<char>>,
}

/// Mathematical view of a meta tag: only its attribute map; the name is fixed.
#[verifier::ext_equal]
pub struct SpecMetaData {
    pub attributes: Map<Seq<char>, Seq<char>>,
}

#[verifier::ext_equal]
pub enum SpecNodeType {
    Text(Seq<char>),
    Element(SpecElementData),
    Meta(SpecMetaData),
}

/// Mathematical view of a node: its kind and its children in document order.
#[verifier::ext_equal]
pub struct SpecNode {
    pub node_type: SpecNodeType,
    pub children: Seq<SpecNode>,
}

/// Mathematical view of a document.
#[verifier::ext_equal]
pub struct SpecDocument {
    pub root_node: SpecNode,
    pub base_url: Seq<char>,
}

/// An attribute map with string keys and values. Duplicate keys resolve
/// last-write-wins; the view is the resulting mathematical map.
#[derive(Debug, PartialEq)]
pub struct AttrMap {
    entries: Vec<(String, String)>,
}

/// The map described by a list of entries: a later entry overwrites an earlier one.
spec fn map_of_entries(es: Seq<(String, String)>) -> Map<Seq<char>, Seq<char>>
    decreases es.len(),
{
    if es.len() == 0 {
        Map::empty()
    } else {
        map_of_entries(es.drop_last()).insert(es.last().0@, es.last().1@)
    }
}

impl View for AttrMap {
    type V = Map<Seq<char>, Seq<char>>;

    closed spec fn view(&self) -> Map<Seq<char>, Seq<char>> {
        map_of_entries(self.entries@)
    }
}

impl AttrMap {
    pub fn new() -> (r: AttrMap)
        ensures
            r@ == Map::<Seq<char>, Seq<char>>::empty(),
    {
        AttrMap { entries: Vec::new() }
    }

    /// Binds `key` to `value`, overwriting any earlier binding of `key`.
    pub fn insert(&mut self, key: String, value: String)
        ensures
            final(self)@ == old(self)@.insert(key@, value@),
    {
        let ghost before = self.entries@;
        self.entries.push((key, value));
        proof {
            assert(self.entries@.drop_last() =~= before);
        }
    }

    /// The value bound to `key`, if any.
    pub fn get(&self, key: &str) -> (r: Option<&String>)
        ensures
            (match r {
                Some(v) => self@.contains_key(key@) && v@ == self@[key@],
                None => !self@.contains_key(key@),
            }),
    {
        let k: String = key.to_owned();
        let mut i: usize = self.entries.len();
        proof {
            assert(self.entries@.take(i as int) =~= self.entries@);
        }
        while i > 0
            invariant
                i <= self.entries@.len(),
                k@ == key@,
                map_of_entries(self.entries@.take(i as int)).contains_key(key@)
                    == self@.contains_key(key@),
                map_of_entries(self.entries@.take(i as int)).contains_key(key@)
                    ==> map_of_entries(self.entries@.take(i as int))[key@] == self@[key@],
            decreases i,
        {
            i = i - 1;
            let e = &self.entries[i];
            proof {
                assert(self.entries@.take(i + 1).drop_last() =~= self.entries@.take(i as int));
                assert(self.entries@.take(i + 1).last() == self.entries@[i as int]);
            }
            if e.0 == k {
                return Some(&self.entries[i].1);
            }
        }
        proof {
            assert(self.entries@.take(0) =~= Seq::<(String, String)>::empty());
        }
        None
    }
}

#[derive(Debug, PartialEq)]
pub struct ElementData {
    pub tag_name: String,
    pub attributes: AttrMap,
}

#[derive(Debug, PartialEq)]
pub struct MetaData {
    pub attributes: AttrMap,
}

#[derive(Debug, PartialEq)]
pub enum NodeType {
    Text(String),
    Element(ElementData),
    Meta(MetaData),
}

/// A tree node: its kind and its children, exclusively owned, in document order.
#[derive(Debug, PartialEq)]
pub struct Node {
    pub node_type: NodeType,
    pub children: Vec<Node>,
}

/// A parsed document. `base_url` is empty after a parse from a buffer and is
/// overwritten by callers that load from a file.
#[derive(Debug, PartialEq)]
pub struct Document {
    pub root_node: Node,
    pub base_url: String,
}

impl View for ElementData {
    type V = SpecElementData;

    open spec fn view(&self) -> SpecElementData {
        SpecElementData { tag_name: self.tag_name@, attributes: self.attributes@ }
    }
}

impl View for MetaData {
    type V = SpecMetaData;

    open spec fn view(&self) -> SpecMetaData {
        SpecMetaData { attributes: self.attributes@ }
    }
}

impl View for NodeType {
    type V = SpecNodeType;

    open spec fn view(&self) -> SpecNodeType {
        match self {
            NodeType::Text(s) => SpecNodeType::Text(s@),
            NodeType::Element(d) => SpecNodeType::Element(d@),
            NodeType::Meta(m) => SpecNodeType::Meta(m@),
        }
    }
}

/// The view of a node, taken recursively through its children.
pub open spec fn node_view(n: Node) -> SpecNode
    decreases n,
{
    SpecNode {
        node_type: n.node_type@,
        children: Seq::new(
            n.children@.len(),
            |i: int|
                if 0 <= i < n.children@.len() {
                    node_view(n.children@[i])
                } else {
                    arbitrary()
                },
        ),
    }
}

/// The views of a sequence of nodes, in order.
pub open spec fn nodes_view(ns: Seq<Node>) -> Seq<SpecNode> {
    Seq::new(
        ns.len(),
        |i: int|
            if 0 <= i < ns.len() {
                node_view(ns[i])
            } else {
                arbitrary()
            },
    )
}

impl View for Node {
    type V = SpecNode;

    open spec fn view(&self) -> SpecNode {
        node_view(*self)
    }
}

impl View for Document {
    type V = SpecDocument;

    open spec fn view(&self) -> SpecDocument {
        SpecDocument { root_node: self.root_node@, base_url: self.base_url@ }
    }
}

/// First match in a forest, in pre-order: each tree before the next.
pub open spec fn spec_first_elem_in(ns: Seq<SpecNode>, name: Seq<char>) -> Option<SpecNode>
    decreases ns,
{
    if ns.len() == 0 {
        None
    } else {
        match spec_first_elem(ns[0], name) {
            Some(m) => Some(m),
            None => spec_first_elem_in(ns.drop_first(), name),
        }
    }
}

/// The first element named `name` in pre-order: the node itself before its
/// children, children in document order. A text or meta node never matches.
pub open spec fn spec_first_elem(n: SpecNode, name: Seq<char>) -> Option<SpecNode>
    decreases n,
{
    if n.node_type matches SpecNodeType::Element(d) && d.tag_name == name {
        Some(n)
    } else {
        spec_first_elem_in(n.children, name)
    }
}

/// Returns the first element named `name` under `node` in pre-order document
/// order, the node itself included; never a later match.
#[allow(non_snake_case)]
pub fn getElementsByTagName<'a>(node: &'a Node, name: &str) -> (r: Option<&'a Node>)
    ensures
        (match r {
            Some(m) => spec_first_elem(node@, name@) == Some(m@),
            None => spec_first_elem(node@, name@) is None,
        }),
    decreases *node,
{
    let owned: String = name.to_owned();
    let is_match: bool = match &node.node_type {
        NodeType::Element(data) => data.tag_name == owned,
        _ => false,
    };
    if is_match {
        return Some(node);
    }
    proof {
        assert(spec_first_elem(node@, name@) == spec_first_elem_in(node@.children, name@));
    }
    let ghost ns = nodes_view(node.children@);
    proof {
        assert(node@.children =~= ns);
        assert(ns.skip(0) =~= ns);
    }
    let mut i: usize = 0;
    while i < node.children.len()
        invariant
            i <= node.children@.len(),
            ns == nodes_view(node.children@),
            node@.children == ns,
            owned@ == name@,
            spec_first_elem(node@, name@) == spec_first_elem_in(ns, name@),
            spec_first_elem_in(ns.skip(i as int), name@) == spec_first_elem_in(ns, name@),
        decreases node.children@.len() - i,
    {
        proof {
            assert(ns.skip(i as int)[0] == ns[i as int]);
            assert(ns.skip(i as int).drop_first() =~= ns.skip(i as int + 1));
        }
        let res = getElementsByTagName(&node.children[i], name);
        if res.is_some() {
            proof {
                assert(ns[i as int] == node_view(node.children@[i as int]));
                assert(spec_first_elem_in(ns.skip(i as int), name@) == spec_first_elem(
                    ns[i as int],
                    name@,
                ));
            }
            return res;
        }
        i = i + 1;
    }
    proof {
        assert(ns.skip(node.children@.len() as int) =~= Seq::<SpecNode>::empty());
    }
    None
}

/// First position at or after `pos` holding a space character, or the end.
pub open spec fn first_space(s: Seq<char>, pos: int) -> int
    decreases s.len() - pos,
{
    if 0 <= pos && pos < s.len() {
        if s[pos] == ' ' {
            pos
        } else {
            first_space(s, pos + 1)
        }
    } else {
        s.len() as int
    }
}

pub proof fn lemma_first_space_exact(s: Seq<char>, pos: int, end: int)
    requires
        0 <= pos <= end <= s.len(),
        forall|j: int| pos <= j < end ==> s[j] != ' ',
        end < s.len() ==> s[end] == ' ',
    ensures
        first_space(s, pos) == end,
    decreases end - pos,
{
    if pos < end {
        lemma_first_space_exact(s, pos + 1, end);
    }
}

/// The tokens of `s` from `pos` on, split on single spaces; consecutive
/// spaces yield empty tokens; they are kept, not filtered.
pub open spec fn split_from(s: Seq<char>, pos: int) -> Seq<Seq<char>>
    decreases s.len() - pos,
{
    let i = first_space(s, pos);
    if 0 <= pos && pos <= i && i < s.len() {
        seq![s.subrange(pos, i)] + split_from(s, i + 1)
    } else {
        seq![s.subrange(if 0 <= pos && pos <= s.len() {
            pos
        } else {
            0
        }, s.len() as int)]
    }
}

/// A class attribute value, split on spaces into a set of tokens.
pub open spec fn spec_split_classes(s: Seq<char>) -> Seq<Seq<char>> {
    split_from(s, 0)
}

/// The set of class tokens of an attribute map: the split `class` value, or
/// the empty set when the attribute is missing.
pub open spec fn spec_classes(attrs: Map<Seq<char>, Seq<char>>) -> Set<Seq<char>> {
    if attrs.contains_key("class"@) {
        spec_split_classes(attrs["class"@]).to_set()
    } else {
        Set::empty()
    }
}

pub open spec fn strings_view(rs: Seq<String>) -> Seq<Seq<char>> {
    Seq::new(
        rs.len(),
        |i: int|
            if 0 <= i < rs.len() {
                rs[i]@
            } else {
                arbitrary()
            },
    )
}

pub open spec fn no_dup_strings(rs: Seq<String>) -> bool {
    forall|i: int, j: int| 0 <= i < j < rs.len() ==> rs[i]@ != rs[j]@
}

proof fn lemma_to_set_push(s: Seq<Seq<char>>, x: Seq<char>)
    ensures
        s.push(x).to_set() == s.to_set().insert(x),
{
    assert(s.push(x)[s.len() as int] == x);
    assert forall|y: Seq<char>| s.push(x).contains(y) implies s.contains(y) || y == x by {
        let i = choose|i: int| 0 <= i < s.push(x).len() && s.push(x)[i] == y;
        if i < s.len() {
            assert(s[i] == y);
        }
    }
    assert forall|y: Seq<char>| s.contains(y) implies s.push(x).contains(y) by {
        let i = choose|i: int| 0 <= i < s.len() && s[i] == y;
        assert(s.push(x)[i] == y);
    }
    assert(s.push(x).to_set() =~= s.to_set().insert(x));
}

/// Appends `t` unless a string with the same characters is already there.
fn push_unique(v: &mut Vec<String>, t: String)
    requires
        no_dup_strings(old(v)@),
    ensures
        strings_view(final(v)@).to_set() == strings_view(old(v)@).to_set().insert(t@),
        no_dup_strings(final(v)@),
{
    let mut idx: usize = 0;
    while idx < v.len()
        invariant
            idx <= v@.len(),
            no_dup_strings(v@),
            v@ == old(v)@,
            forall|j: int| 0 <= j < idx ==> v@[j]@ != t@,
        decreases v@.len() - idx,
    {
        if v[idx] == t {
            proof {
                assert(strings_view(v@).contains(t@)) by {
                    assert(strings_view(v@)[idx as int] == t@);
                }
                assert(strings_view(v@).to_set() =~= strings_view(v@).to_set().insert(t@));
            }
            return;
        }
        idx = idx + 1;
    }
    let ghost before = v@;
    v.push(t);
    proof {
        assert(strings_view(v@) =~= strings_view(before).push(t@));
        lemma_to_set_push(strings_view(before), t@);
        assert forall|i: int, j: int| 0 <= i < j < v@.len() implies v@[i]@ != v@[j]@ by {
            if j == v@.len() - 1 {
                assert(v@[i]@ != t@);
            }
        }
    }
}

impl ElementData {
    /// The tokens of the `class` attribute, split on spaces, without
    /// duplicates; empty when the attribute is missing. Consecutive spaces
    /// yield an empty token, which is kept, not filtered.
    pub fn classes(&self) -> (r: Vec<String>)
        ensures
            strings_view(r@).to_set() == spec_classes(self@.attributes),
            no_dup_strings(r@),
    {
        match self.attributes.get("class") {
            None => {
                let r: Vec<String> = Vec::new();
                proof {
                    assert(strings_view(r@).to_set() =~= Set::<Seq<char>>::empty());
                }
                r
            },
            Some(cl) => {
                let s: &str = cl.as_str();
                let n: usize = s.unicode_len();
                let mut out: Vec<String> = Vec::new();
                let ghost mut ts: Seq<Seq<char>> = Seq::empty();
                let mut start: usize = 0;
                let mut i: usize = 0;
                proof {
                    assert(ts + split_from(s@, 0) =~= spec_split_classes(s@));
                    assert(strings_view(out@).to_set() =~= ts.to_set());
                }
                while i < n
                    invariant
                        start <= i <= n,
                        n == s@.len(),
                        s@ == self@.attributes["class"@],
                        self@.attributes.contains_key("class"@),
                        forall|j: int| start <= j < i ==> s@[j] != ' ',
                        ts + split_from(s@, start as int) == spec_split_classes(s@),
                        strings_view(out@).to_set() == ts.to_set(),
                        no_dup_strings(out@),
                    decreases n - i,
                {
                    let c = s.get_char(i);
                    if c == ' ' {
                        proof {
                            lemma_first_space_exact(s@, start as int, i as int);
                            assert(split_from(s@, start as int) == seq![
                                s@.subrange(start as int, i as int),
                            ] + split_from(s@, i as int + 1));
                            assert(ts + (seq![s@.subrange(start as int, i as int)] + split_from(
                                s@,
                                i as int + 1,
                            )) =~= ts.push(s@.subrange(start as int, i as int)) + split_from(
                                s@,
                                i as int + 1,
                            ));
                        }
                        let t: String = s.substring_char(start, i).to_owned();
                        push_unique(&mut out, t);
                        proof {
                            lemma_to_set_push(ts, s@.subrange(start as int, i as int));
                            ts = ts.push(s@.subrange(start as int, i as int));
                        }
                        start = i + 1;
                    }
                    i = i + 1;
                }
                proof {
                    lemma_first_space_exact(s@, start as int, n as int);
                    assert(split_from(s@, start as int) == seq![
                        s@.subrange(start as int, n as int),
                    ]);
                    assert(ts + seq![s@.subrange(start as int, n as int)] =~= ts.push(
                        s@.subrange(start as int, n as int),
                    ));
                }
                let t: String = s.substring_char(start, n).to_owned();
                push_unique(&mut out, t);
                proof {
                    lemma_to_set_push(ts, s@.subrange(start as int, n as int));
                    ts = ts.push(s@.subrange(start as int, n as int));
                    assert(strings_view(out@).to_set() == spec_split_classes(s@).to_set());
                }
                out
            },
        }
    }

    /// The value of the `id` attribute, if present.
    pub fn id(&self) -> (r: Option<&String>)
        ensures
            (match r {
                Some(v) => self@.attributes.contains_key("id"@) && v@ == self@.attributes["id"@],
                None => !self@.attributes.contains_key("id"@),
            }),
    {
        self.attributes.get("id")
    }
}

/// A childless text node holding `data`.
pub fn text(data: String) -> (n: Node)
    ensures
        n@ == (SpecNode { node_type: SpecNodeType::Text(data@), children: Seq::<SpecNode>::empty() }),
{
    let n = Node { children: Vec::new(), node_type: NodeType::Text(data) };
    proof {
        assert(n@.children =~= Seq::<SpecNode>::empty());
        assert(n@ =~= SpecNode {
            node_type: SpecNodeType::Text(data@),
            children: Seq::<SpecNode>::empty(),
        });
    }
    n
}

} // verus!
