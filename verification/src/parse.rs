//! The executable recursive-descent parser.
//!
//! Every function here returns exactly what the corresponding specification
//! function in `crate::grammar` returns on the same input: the same parsed
//! value and end position on success, the same error on failure. Parsing is
//! all-or-nothing; no partial tree is ever handed out.

use vstd::prelude::*;
use vstd::utf8::{decode_utf8, valid_utf8};
use crate::dom::{
    nodes_view, text, AttrMap, Document, ElementData, MetaData, Node, NodeType, SpecDocument,
    SpecElementData, SpecMetaData, SpecNode, SpecNodeType,
};
use crate::grammar::{
    attrs_fold, spec_attr_list, spec_attribute, spec_attributes, spec_child, spec_children,
    spec_close_tag, spec_comment, spec_doctype, spec_document, spec_element, spec_meta, spec_name,
    spec_open_tag, spec_skip_space, spec_text, comment_close_at, find_comment_close, in_class,
    lemma_ascii_utf8, lemma_run_end_chars, run_end, ByteClass, Expected, ParseError,
};

verus! {

fn byte_in_class(c: ByteClass, b: u8) -> (r: bool)
    ensures
        r == in_class(c, b),
{
    match c {
        ByteClass::Space => b == 32 || b == 9 || b == 10 || b == 13,
        ByteClass::Alpha => (65 <= b && b <= 90) || (97 <= b && b <= 122),
        ByteClass::Alphanum => (65 <= b && b <= 90) || (97 <= b && b <= 122) || (48 <= b && b
            <= 57),
        ByteClass::TextByte => b != 60,
        ByteClass::ValueByte => b != 34 && b != 92,
    }
}

/// Advances over the longest run of bytes in the class, starting at `pos`.
fn scan(input: &Vec<u8>, pos: usize, c: ByteClass) -> (r: usize)
    requires
        pos <= input@.len(),
    ensures
        r == run_end(input@, pos as int, c),
        pos <= r <= input@.len(),
{
    let mut i: usize = pos;
    let mut stop: bool = false;
    while !stop && i < input.len()
        invariant
            pos <= i <= input@.len(),
            run_end(input@, pos as int, c) == run_end(input@, i as int, c),
            stop ==> run_end(input@, i as int, c) == i,
        decreases input@.len() - i + (if stop { 0int } else { 1int }),
    {
        if byte_in_class(c, input[i]) {
            i = i + 1;
        } else {
            stop = true;
        }
    }
    i
}

/// Copies `input[from..to]` into a fresh vector.
fn copy_range(input: &Vec<u8>, from: usize, to: usize) -> (r: Vec<u8>)
    requires
        from <= to <= input@.len(),
    ensures
        r@ == input@.subrange(from as int, to as int),
{
    let mut out: Vec<u8> = Vec::new();
    let mut i: usize = from;
    proof {
        assert(out@ =~= input@.subrange(from as int, from as int));
    }
    while i < to
        invariant
            from <= i <= to <= input@.len(),
            out@ == input@.subrange(from as int, i as int),
        decreases to - i,
    {
        out.push(input[i]);
        proof {
            assert(out@ =~= input@.subrange(from as int, i as int + 1));
        }
        i = i + 1;
    }
    out
}

/// Relies on `String::from_utf8`: well-formed UTF-8 decodes to exactly the
/// characters it encodes, and ill-formed bytes are rejected.
#[verifier::external_body]
fn bytes_to_string(bytes: Vec<u8>) -> (r: Option<String>)
    ensures
        (match r {
            Some(s) => valid_utf8(bytes@) && s@ == decode_utf8(bytes@),
            None => !valid_utf8(bytes@),
        }),
{
    String::from_utf8(bytes).ok()
}

/// Consumes whitespace; returns the first position with none left. Never fails.
pub fn space(input: &Vec<u8>, pos: usize) -> (r: usize)
    requires
        pos <= input@.len(),
    ensures
        r == spec_skip_space(input@, pos as int),
        pos <= r <= input@.len(),
{
    scan(input, pos, ByteClass::Space)
}

pub open spec fn name_post(s: Seq<u8>, pos: int, r: Result<(String, usize), ParseError>) -> bool {
    match (r, spec_name(s, pos)) {
        (Ok((name, p)), Ok((sname, sp))) => name@ == sname && p == sp,
        (Err(e), Err(se)) => e == se,
        _ => false,
    }
}

/// One or more ASCII letters or digits, decoded as a string.
pub fn alphanum_string(input: &Vec<u8>, pos: usize) -> (r: Result<(String, usize), ParseError>)
    requires
        pos <= input@.len(),
    ensures
        name_post(input@, pos as int, r),
        (r matches Ok(x) ==> pos < x.1 <= input@.len()),
{
    let e = scan(input, pos, ByteClass::Alphanum);
    if e == pos {
        Err(ParseError { pos, expected: Expected::TagName })
    } else {
        let bytes = copy_range(input, pos, e);
        proof {
            lemma_run_end_chars(input@, pos as int, ByteClass::Alphanum);
            assert(forall|i: int| 0 <= i < bytes@.len() ==> bytes@[i] < 128);
            lemma_ascii_utf8(bytes@);
        }
        match bytes_to_string(bytes) {
            Some(s) => Ok((s, e)),
            None => {
                proof {
                    assert(false);
                }
                Err(ParseError { pos, expected: Expected::TagName })
            },
        }
    }
}

/// A tag name: an alphanumeric run.
pub fn element_name(input: &Vec<u8>, pos: usize) -> (r: Result<(String, usize), ParseError>)
    requires
        pos <= input@.len(),
    ensures
        name_post(input@, pos as int, r),
        (r matches Ok(x) ==> pos < x.1 <= input@.len()),
{
    alphanum_string(input, pos)
}

pub open spec fn attribute_post(
    s: Seq<u8>,
    pos: int,
    r: Result<((String, String), usize), ParseError>,
) -> bool {
    match (r, spec_attribute(s, pos)) {
        (Ok(((k, v), p)), Ok((skv, sp))) => k@ == skv.0 && v@ == skv.1 && p == sp,
        (Err(e), Err(se)) => e == se,
        _ => false,
    }
}

/// One `key="value"` pair after optional whitespace. Keys are ASCII letters
/// only: a digit or hyphen in a key is a deliberate grammar limitation.
pub fn attribute(input: &Vec<u8>, pos: usize) -> (r: Result<((String, String), usize), ParseError>)
    requires
        pos <= input@.len(),
    ensures
        attribute_post(input@, pos as int, r),
        (r matches Ok(x) ==> pos < x.1 <= input@.len()),
{
    let p1 = space(input, pos);
    let k_end = scan(input, p1, ByteClass::Alpha);
    if k_end == p1 {
        return Err(ParseError { pos: p1, expected: Expected::AttrKey });
    }
    if !(k_end < input.len() && input[k_end] == 61) {
        return Err(ParseError { pos: k_end, expected: Expected::Equals });
    }
    if !(k_end + 1 < input.len() && input[k_end + 1] == 34) {
        return Err(ParseError { pos: k_end + 1, expected: Expected::Quote });
    }
    let v_start = k_end + 2;
    let v_end = scan(input, v_start, ByteClass::ValueByte);
    if !(v_end < input.len() && input[v_end] == 34) {
        return Err(ParseError { pos: v_end, expected: Expected::ClosingQuote });
    }
    let key_bytes = copy_range(input, p1, k_end);
    proof {
        lemma_run_end_chars(input@, p1 as int, ByteClass::Alpha);
        assert(forall|i: int| 0 <= i < key_bytes@.len() ==> key_bytes@[i] < 128);
        lemma_ascii_utf8(key_bytes@);
    }
    let key_s = match bytes_to_string(key_bytes) {
        Some(s) => s,
        None => {
            proof {
                assert(false);
            }
            return Err(ParseError { pos: p1, expected: Expected::AttrKey });
        },
    };
    let val_bytes = copy_range(input, v_start, v_end);
    match bytes_to_string(val_bytes) {
        None => Err(ParseError { pos: v_start, expected: Expected::Encoding }),
        Some(val_s) => Ok(((key_s, val_s), v_end + 1)),
    }
}

/// Zero or more attributes folded into a map, last write wins. Never fails.
pub fn attributes(input: &Vec<u8>, pos: usize) -> (r: (AttrMap, usize))
    requires
        pos <= input@.len(),
    ensures
        r.0@ == spec_attributes(input@, pos as int).0,
        r.1 == spec_attributes(input@, pos as int).1,
        pos <= r.1 <= input@.len(),
{
    let mut m = AttrMap::new();
    let mut cur: usize = pos;
    let mut stop: bool = false;
    while !stop
        invariant
            pos <= cur <= input@.len(),
            attrs_fold(m@, spec_attr_list(input@, cur as int).0) == attrs_fold(
                Map::empty(),
                spec_attr_list(input@, pos as int).0,
            ),
            spec_attr_list(input@, cur as int).1 == spec_attr_list(input@, pos as int).1,
            stop ==> spec_attribute(input@, cur as int) is Err,
        decreases input@.len() - cur + (if stop { 0int } else { 1int }),
    {
        match attribute(input, cur) {
            Err(_e) => {
                stop = true;
            },
            Ok(((k, v), p)) => {
                proof {
                    let rest = spec_attr_list(input@, p as int).0;
                    assert(spec_attr_list(input@, cur as int).0 == seq![(k@, v@)] + rest);
                    assert((seq![(k@, v@)] + rest)[0] == (k@, v@));
                    assert((seq![(k@, v@)] + rest).drop_first() =~= rest);
                }
                m.insert(k, v);
                cur = p;
            },
        }
    }
    (m, cur)
}

pub open spec fn open_post(
    s: Seq<u8>,
    pos: int,
    r: Result<((String, AttrMap), usize), ParseError>,
) -> bool {
    match (r, spec_open_tag(s, pos)) {
        (Ok(((n, a), p)), Ok((st, sp))) => n@ == st.0 && a@ == st.1 && p == sp,
        (Err(e), Err(se)) => e == se,
        _ => false,
    }
}

/// `space < name attributes >`.
pub fn open_element(input: &Vec<u8>, pos: usize) -> (r: Result<
    ((String, AttrMap), usize),
    ParseError,
>)
    requires
        pos <= input@.len(),
    ensures
        open_post(input@, pos as int, r),
        (r matches Ok(x) ==> pos < x.1 <= input@.len()),
{
    let p1 = space(input, pos);
    if !(p1 < input.len() && input[p1] == 60) {
        return Err(ParseError { pos: p1, expected: Expected::OpenAngle });
    }
    match alphanum_string(input, p1 + 1) {
        Err(e) => Err(e),
        Ok((name, p2)) => {
            let (attrs, p3) = attributes(input, p2);
            if !(p3 < input.len() && input[p3] == 62) {
                Err(ParseError { pos: p3, expected: Expected::Gt })
            } else {
                Ok(((name, attrs), p3 + 1))
            }
        },
    }
}

pub open spec fn close_post(s: Seq<u8>, pos: int, r: Result<(String, usize), ParseError>) -> bool {
    match (r, spec_close_tag(s, pos)) {
        (Ok((n, p)), Ok((sn, sp))) => n@ == sn && p == sp,
        (Err(e), Err(se)) => e == se,
        _ => false,
    }
}

/// `space < / name >`. The name is returned but never checked against the
/// open tag: mismatched close tags are accepted, as the grammar documents.
pub fn close_element(input: &Vec<u8>, pos: usize) -> (r: Result<(String, usize), ParseError>)
    requires
        pos <= input@.len(),
    ensures
        close_post(input@, pos as int, r),
        (r matches Ok(x) ==> pos < x.1 <= input@.len()),
{
    let p1 = space(input, pos);
    if !(p1 < input.len() && input[p1] == 60) {
        return Err(ParseError { pos: p1, expected: Expected::OpenAngle });
    }
    if !(p1 + 1 < input.len() && input[p1 + 1] == 47) {
        return Err(ParseError { pos: p1 + 1, expected: Expected::Slash });
    }
    match alphanum_string(input, p1 + 2) {
        Err(e) => Err(e),
        Ok((name, p2)) => {
            if !(p2 < input.len() && input[p2] == 62) {
                Err(ParseError { pos: p2, expected: Expected::Gt })
            } else {
                Ok((name, p2 + 1))
            }
        },
    }
}

pub open spec fn text_post(s: Seq<u8>, pos: int, r: Result<(Node, usize), ParseError>) -> bool {
    match (r, spec_text(s, pos)) {
        (Ok((n, p)), Ok((txt, sp))) => n@ == (SpecNode {
            node_type: SpecNodeType::Text(txt),
            children: Seq::empty(),
        }) && p == sp,
        (Err(e), Err(se)) => e == se,
        _ => false,
    }
}

/// One or more bytes other than `<`, verbatim, as a childless text node.
pub fn text_content(input: &Vec<u8>, pos: usize) -> (r: Result<(Node, usize), ParseError>)
    requires
        pos <= input@.len(),
    ensures
        text_post(input@, pos as int, r),
        (r matches Ok(x) ==> pos < x.1 <= input@.len()),
{
    let e = scan(input, pos, ByteClass::TextByte);
    if e == pos {
        return Err(ParseError { pos, expected: Expected::TextRun });
    }
    let bytes = copy_range(input, pos, e);
    match bytes_to_string(bytes) {
        None => Err(ParseError { pos, expected: Expected::Encoding }),
        Some(s) => Ok((text(s), e)),
    }
}

pub open spec fn meta_post(s: Seq<u8>, pos: int, r: Result<(Node, usize), ParseError>) -> bool {
    match (r, spec_meta(s, pos)) {
        (Ok((n, p)), Ok((attrs, sp))) => n@ == (SpecNode {
            node_type: SpecNodeType::Meta(SpecMetaData { attributes: attrs }),
            children: Seq::empty(),
        }) && p == sp,
        (Err(e), Err(se)) => e == se,
        _ => false,
    }
}

/// `<meta attributes>`: the only void element the grammar supports.
pub fn meta_tag(input: &Vec<u8>, pos: usize) -> (r: Result<(Node, usize), ParseError>)
    requires
        pos <= input@.len(),
    ensures
        meta_post(input@, pos as int, r),
        (r matches Ok(x) ==> pos < x.1 <= input@.len()),
{
    if !(input.len() - pos >= 6 && input[pos] == 60 && input[pos + 1] == 109 && input[pos + 2]
        == 101 && input[pos + 3] == 116 && input[pos + 4] == 97 && input[pos + 5] == 32) {
        return Err(ParseError { pos, expected: Expected::MetaStart });
    }
    let (attrs, p2) = attributes(input, pos + 6);
    if !(p2 < input.len() && input[p2] == 62) {
        return Err(ParseError { pos: p2, expected: Expected::Gt });
    }
    let n = Node { node_type: NodeType::Meta(MetaData { attributes: attrs }), children: Vec::new() };
    proof {
        assert(n@.children =~= Seq::<SpecNode>::empty());
        assert(n@ =~= SpecNode {
            node_type: SpecNodeType::Meta(SpecMetaData { attributes: spec_meta(input@, pos as int).unwrap().0 }),
            children: Seq::empty(),
        });
    }
    Ok((n, p2 + 1))
}

pub open spec fn child_post(s: Seq<u8>, pos: int, r: Result<(Node, usize), ParseError>) -> bool {
    match (r, spec_child(s, pos)) {
        (Ok((n, p)), Ok((sn, sp))) => n@ == sn && p == sp,
        (Err(e), Err(se)) => e == se,
        _ => false,
    }
}

/// One child of an element: a meta tag, else text, else a nested element.
pub fn element_child(input: &Vec<u8>, pos: usize) -> (r: Result<(Node, usize), ParseError>)
    requires
        pos <= input@.len(),
    ensures
        child_post(input@, pos as int, r),
        (r matches Ok(x) ==> pos < x.1 <= input@.len()),
    decreases input@.len() - pos, 1int,
{
    match meta_tag(input, pos) {
        Ok((n, p)) => Ok((n, p)),
        Err(_) => match text_content(input, pos) {
            Ok((n, p)) => Ok((n, p)),
            Err(_) => element(input, pos),
        },
    }
}

pub open spec fn element_post(s: Seq<u8>, pos: int, r: Result<(Node, usize), ParseError>) -> bool {
    match (r, spec_element(s, pos)) {
        (Ok((n, p)), Ok((sn, sp))) => n@ == sn && p == sp,
        (Err(e), Err(se)) => e == se,
        _ => false,
    }
}

/// A full element: open tag, children in order, close tag.
pub fn element(input: &Vec<u8>, pos: usize) -> (r: Result<(Node, usize), ParseError>)
    requires
        pos <= input@.len(),
    ensures
        element_post(input@, pos as int, r),
        (r matches Ok(x) ==> pos < x.1 <= input@.len()),
        (r matches Ok(x) ==> x.0@.node_type matches SpecNodeType::Element(_)),
    decreases input@.len() - pos, 0int,
{
    match open_element(input, pos) {
        Err(e) => Err(e),
        Ok(((name, attrs), p1)) => {
            let p2 = space(input, p1);
            let mut children_v: Vec<Node> = Vec::new();
            let mut cur: usize = p2;
            let mut stop: bool = false;
            proof {
                assert(nodes_view(children_v@) =~= Seq::<SpecNode>::empty());
            }
            while !stop
                invariant
                    pos < p2 <= cur <= input@.len(),
                    spec_children(input@, p2 as int).0 == nodes_view(children_v@) + spec_children(
                        input@,
                        cur as int,
                    ).0,
                    spec_children(input@, p2 as int).1 == spec_children(input@, cur as int).1,
                    stop ==> spec_child(input@, cur as int) is Err,
                decreases input@.len() - cur + (if stop { 0int } else { 1int }),
            {
                match element_child(input, cur) {
                    Err(_e) => {
                        stop = true;
                    },
                    Ok((n, p)) => {
                        proof {
                            let rest = spec_children(input@, p as int).0;
                            assert(spec_children(input@, cur as int).0 == seq![n@] + rest);
                            assert(nodes_view(children_v@.push(n)) =~= nodes_view(
                                children_v@,
                            ).push(n@));
                            assert(nodes_view(children_v@) + (seq![n@] + rest) =~= nodes_view(
                                children_v@,
                            ).push(n@) + rest);
                        }
                        children_v.push(n);
                        cur = p;
                    },
                }
            }
            proof {
                assert(nodes_view(children_v@) + Seq::<SpecNode>::empty() =~= nodes_view(
                    children_v@,
                ));
            }
            match close_element(input, cur) {
                Err(e) => Err(e),
                Ok((_close_name, p4)) => {
                    let nd = Node {
                        node_type: NodeType::Element(
                            ElementData { tag_name: name, attributes: attrs },
                        ),
                        children: children_v,
                    };
                    proof {
                        assert(nd@.children =~= nodes_view(nd.children@));
                        assert(nd@ =~= SpecNode {
                            node_type: SpecNodeType::Element(
                                SpecElementData {
                                    tag_name: nd.node_type->Element_0.tag_name@,
                                    attributes: nd.node_type->Element_0.attributes@,
                                },
                            ),
                            children: nodes_view(nd.children@),
                        });
                    }
                    Ok((nd, p4))
                },
            }
        },
    }
}

pub open spec fn doctype_post(s: Seq<u8>, pos: int, r: Result<((), usize), ParseError>) -> bool {
    match (r, spec_doctype(s, pos)) {
        (Ok((_u, p)), Ok(sp)) => p == sp,
        (Err(e), Err(se)) => e == se,
        _ => false,
    }
}

/// The literal `<!DOCTYPE html>`, exactly; no other doctype form is accepted.
pub fn doctype(input: &Vec<u8>, pos: usize) -> (r: Result<((), usize), ParseError>)
    requires
        pos <= input@.len(),
    ensures
        doctype_post(input@, pos as int, r),
        (r matches Ok(x) ==> pos < x.1 <= input@.len()),
{
    if input.len() - pos >= 15 && input[pos] == 60 && input[pos + 1] == 33 && input[pos + 2] == 68
        && input[pos + 3] == 79 && input[pos + 4] == 67 && input[pos + 5] == 84 && input[pos + 6]
        == 89 && input[pos + 7] == 80 && input[pos + 8] == 69 && input[pos + 9] == 32 && input[pos
        + 10] == 104 && input[pos + 11] == 116 && input[pos + 12] == 109 && input[pos + 13] == 108
        && input[pos + 14] == 62 {
        Ok(((), pos + 15))
    } else {
        Err(ParseError { pos, expected: Expected::Doctype })
    }
}

pub open spec fn document_post(s: Seq<u8>, r: Result<(Document, usize), ParseError>) -> bool {
    match (r, spec_document(s)) {
        (Ok((d, p)), Ok((sd, sp))) => d@ == sd && p == sp,
        (Err(e), Err(se)) => e == se,
        _ => false,
    }
}

/// A whole document: optional whitespace and doctype, then one root element.
/// Bytes after the root element are ignored: the grammar never anchors at
/// the end of input.
pub fn document(input: &Vec<u8>) -> (r: Result<(Document, usize), ParseError>)
    ensures
        document_post(input@, r),
        (r matches Ok(x) ==> x.0@.root_node.node_type matches SpecNodeType::Element(_)),
        (r matches Ok(x) ==> x.0@.base_url == Seq::<char>::empty()),
{
    let p1 = space(input, 0);
    let p2 = match doctype(input, p1) {
        Ok((_u, p)) => p,
        Err(_) => p1,
    };
    let p3 = space(input, p2);
    match element(input, p3) {
        Err(e) => Err(e),
        Ok((root, p4)) => {
            let d = Document { root_node: root, base_url: String::new() };
            proof {
                assert(d@ =~= SpecDocument {
                    root_node: d.root_node@,
                    base_url: Seq::empty(),
                });
            }
            Ok((d, p4))
        },
    }
}

/// Parses a document from an in-memory buffer. On a grammar mismatch this
/// returns the error with its byte offset and the expected construct; it
/// never returns a partial tree.
pub fn load_doc_from_buffer(buf: Vec<u8>) -> (r: Result<Document, ParseError>)
    ensures
        (match (r, spec_document(buf@)) {
            (Ok(d), Ok((sd, _p))) => d@ == sd,
            (Err(e), Err(se)) => e == se,
            _ => false,
        }),
        (r matches Ok(d) ==> d@.root_node.node_type matches SpecNodeType::Element(_)),
        (r matches Ok(d) ==> d@.base_url == Seq::<char>::empty()),
{
    match document(&buf) {
        Ok((d, _p)) => Ok(d),
        Err(e) => Err(e),
    }
}

pub open spec fn comment_post(s: Seq<u8>, pos: int, r: Result<(String, usize), ParseError>) -> bool {
    match (r, spec_comment(s, pos)) {
        (Ok((c, p)), Ok((sc, sp))) => c@ == sc && p == sp,
        (Err(e), Err(se)) => e == se,
        _ => false,
    }
}

/// `<!--` up to the first `-->`; returns the comment's text. The element
/// grammar does not use comments: this rule stands alone.
pub fn comment(input: &Vec<u8>, pos: usize) -> (r: Result<(String, usize), ParseError>)
    requires
        pos <= input@.len(),
    ensures
        comment_post(input@, pos as int, r),
        (r matches Ok(x) ==> pos < x.1 <= input@.len()),
{
    if !(input.len() - pos >= 4 && input[pos] == 60 && input[pos + 1] == 33 && input[pos + 2] == 45
        && input[pos + 3] == 45) {
        return Err(ParseError { pos, expected: Expected::CommentStart });
    }
    let start = pos + 4;
    let mut i: usize = start;
    let mut found: bool = false;
    while !found && i < input.len()
        invariant
            start <= i <= input@.len(),
            start <= input@.len(),
            find_comment_close(input@, start as int) == find_comment_close(input@, i as int),
            found ==> comment_close_at(input@, i as int),
        decreases input@.len() - i + (if found { 0int } else { 1int }),
    {
        if input.len() - i >= 3 && input[i] == 45 && input[i + 1] == 45 && input[i + 2] == 62 {
            found = true;
        } else {
            i = i + 1;
        }
    }
    if !found {
        return Err(ParseError { pos: input.len(), expected: Expected::CommentClose });
    }
    let bytes = copy_range(input, start, i);
    match bytes_to_string(bytes) {
        None => Err(ParseError { pos: start, expected: Expected::Encoding }),
        Some(c) => Ok((c, i + 3)),
    }
}

} // verus!
