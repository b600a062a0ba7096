//! The markup grammar, stated as specification functions over byte sequences.
//!
//! Every executable parser in `crate::parse` promises to return exactly what
//! the corresponding function here returns: the same value on success, and
//! the same error (byte offset plus expected construct) on failure.

use vstd::prelude::*;
use vstd::utf8::*;
use crate::dom::{SpecDocument, SpecElementData, SpecMetaData, SpecNode, SpecNodeType};

verus! {

/// ASCII bytes are well-formed UTF-8 and decode to the characters with the same codes.
pub proof fn lemma_ascii_utf8(bytes: Seq<u8>)
    requires
        forall|i: int| 0 <= i < bytes.len() ==> bytes[i] < 128,
    ensures
        valid_utf8(bytes),
        decode_utf8(bytes) == Seq::new(bytes.len(), |i: int| bytes[i] as char),
    decreases bytes.len(),
{
    if bytes.len() == 0 {
        assert(decode_utf8(bytes) =~= Seq::new(bytes.len(), |i: int| bytes[i] as char));
    } else {
        let b0 = bytes[0];
        assert(b0 & 0x7f == b0) by (bit_vector)
            requires
                b0 < 128,
        ;
        assert(valid_first_scalar(bytes));
        assert(length_of_first_scalar(bytes) == 1);
        assert(pop_first_scalar(bytes) =~= bytes.drop_first());
        lemma_ascii_utf8(bytes.drop_first());
        assert(decode_first_scalar(bytes) == b0 as u32);
        assert((b0 as u32) as char == b0 as char);
        assert(decode_utf8(bytes) =~= Seq::new(bytes.len(), |i: int| bytes[i] as char));
    }
}

/// The construct that a failed parse was looking for at the reported offset.
#[derive(Debug, PartialEq, Eq, Clone, Copy)]
pub enum Expected {
    /// An alphanumeric tag name.
    TagName,
    /// An alphabetic attribute key.
    AttrKey,
    /// The byte `=` between an attribute key and its value.
    Equals,
    /// The byte `"` opening an attribute value.
    Quote,
    /// The byte `"` closing an attribute value.
    ClosingQuote,
    /// The byte `>` ending a tag.
    Gt,
    /// The byte `<` starting a tag.
    OpenAngle,
    /// The byte `/` of a closing tag.
    Slash,
    /// The literal `<meta ` prefix of a meta tag.
    MetaStart,
    /// At least one byte of text content.
    TextRun,
    /// Bytes forming well-formed UTF-8.
    Encoding,
    /// The literal `<!DOCTYPE html>`.
    Doctype,
    /// The literal `<!--` opening a comment.
    CommentStart,
    /// The literal `-->` closing a comment.
    CommentClose,
}

/// A grammar failure: the byte offset reached and the construct expected there.
#[derive(Debug, PartialEq, Eq, Clone, Copy)]
pub struct ParseError {
    pub pos: usize,
    pub expected: Expected,
}

/// The byte classes of the lexical grammar.
#[derive(Debug, PartialEq, Eq, Clone, Copy)]
pub enum ByteClass {
    /// Space, tab, carriage return, line feed.
    Space,
    /// ASCII letters.
    Alpha,
    /// ASCII letters and digits.
    Alphanum,
    /// Any byte but `<`.
    TextByte,
    /// Any byte but `"` and `\`.
    ValueByte,
}

pub open spec fn in_class(c: ByteClass, b: u8) -> bool {
    match c {
        ByteClass::Space => b == 32 || b == 9 || b == 10 || b == 13,
        ByteClass::Alpha => (65 <= b && b <= 90) || (97 <= b && b <= 122),
        ByteClass::Alphanum => (65 <= b && b <= 90) || (97 <= b && b <= 122) || (48 <= b && b
            <= 57),
        ByteClass::TextByte => b != 60,
        ByteClass::ValueByte => b != 34 && b != 92,
    }
}

/// First position at or after `pos` whose byte is not in the class (or the end).
pub open spec fn run_end(s: Seq<u8>, pos: int, c: ByteClass) -> int
    decreases s.len() - pos,
{
    if 0 <= pos && pos < s.len() && in_class(c, s[pos]) {
        run_end(s, pos + 1, c)
    } else {
        pos
    }
}

/// A run ends exactly where the class stops holding.
pub proof fn lemma_run_end_exact(s: Seq<u8>, pos: int, end: int, c: ByteClass)
    requires
        0 <= pos <= end <= s.len(),
        forall|j: int| pos <= j < end ==> in_class(c, s[j]),
        end < s.len() ==> !in_class(c, s[end]),
    ensures
        run_end(s, pos, c) == end,
    decreases end - pos,
{
    if pos < end {
        lemma_run_end_exact(s, pos + 1, end, c);
    }
}

/// Every byte inside a run is in the class, and the byte after it is not.
pub proof fn lemma_run_end_chars(s: Seq<u8>, pos: int, c: ByteClass)
    requires
        0 <= pos <= s.len(),
    ensures
        forall|j: int| pos <= j < run_end(s, pos, c) ==> in_class(c, s[j]),
        run_end(s, pos, c) < s.len() ==> !in_class(c, s[run_end(s, pos, c)]),
    decreases s.len() - pos,
{
    if pos < s.len() && in_class(c, s[pos]) {
        lemma_run_end_chars(s, pos + 1, c);
    }
}

pub open spec fn spec_skip_space(s: Seq<u8>, pos: int) -> int {
    run_end(s, pos, ByteClass::Space)
}

/// An alphanumeric run of one or more bytes, decoded: a tag name.
pub open spec fn spec_name(s: Seq<u8>, pos: int) -> Result<(Seq<char>, int), ParseError> {
    let e = run_end(s, pos, ByteClass::Alphanum);
    if e == pos {
        Err(ParseError { pos: pos as usize, expected: Expected::TagName })
    } else {
        Ok((decode_utf8(s.subrange(pos, e)), e))
    }
}

/// One `key="value"` pair, preceded by optional whitespace.
pub open spec fn spec_attribute(s: Seq<u8>, pos: int) -> Result<
    ((Seq<char>, Seq<char>), int),
    ParseError,
> {
    let p1 = spec_skip_space(s, pos);
    let k_end = run_end(s, p1, ByteClass::Alpha);
    if k_end == p1 {
        Err(ParseError { pos: p1 as usize, expected: Expected::AttrKey })
    } else if !(k_end < s.len() && s[k_end] == 61) {
        Err(ParseError { pos: k_end as usize, expected: Expected::Equals })
    } else if !(k_end + 1 < s.len() && s[k_end + 1] == 34) {
        Err(ParseError { pos: (k_end + 1) as usize, expected: Expected::Quote })
    } else {
        let v_end = run_end(s, k_end + 2, ByteClass::ValueByte);
        if !(v_end < s.len() && s[v_end] == 34) {
            Err(ParseError { pos: v_end as usize, expected: Expected::ClosingQuote })
        } else if !valid_utf8(s.subrange(k_end + 2, v_end)) {
            Err(ParseError { pos: (k_end + 2) as usize, expected: Expected::Encoding })
        } else {
            Ok(
                (
                    (decode_utf8(s.subrange(p1, k_end)), decode_utf8(s.subrange(k_end + 2, v_end))),
                    v_end + 1,
                ),
            )
        }
    }
}

/// Zero or more attributes: the pairs in source order and the end position.
pub open spec fn spec_attr_list(s: Seq<u8>, pos: int) -> (Seq<(Seq<char>, Seq<char>)>, int)
    decreases s.len() - pos,
{
    match spec_attribute(s, pos) {
        Ok((kv, p2)) => {
            if pos < p2 <= s.len() {
                let (rest, p3) = spec_attr_list(s, p2);
                (seq![kv] + rest, p3)
            } else {
                (seq![kv], p2)
            }
        },
        Err(_) => (Seq::empty(), pos),
    }
}

/// Folds attribute pairs into a map, left to right: a later key overwrites.
pub open spec fn attrs_fold(
    m: Map<Seq<char>, Seq<char>>,
    l: Seq<(Seq<char>, Seq<char>)>,
) -> Map<Seq<char>, Seq<char>>
    decreases l.len(),
{
    if l.len() == 0 {
        m
    } else {
        attrs_fold(m.insert(l[0].0, l[0].1), l.drop_first())
    }
}

/// The attribute map at `pos`: all pairs folded, last write wins.
pub open spec fn spec_attributes(s: Seq<u8>, pos: int) -> (Map<Seq<char>, Seq<char>>, int) {
    let (l, p) = spec_attr_list(s, pos);
    (attrs_fold(Map::empty(), l), p)
}

/// `space < name attributes >`.
pub open spec fn spec_open_tag(s: Seq<u8>, pos: int) -> Result<
    ((Seq<char>, Map<Seq<char>, Seq<char>>), int),
    ParseError,
> {
    let p1 = spec_skip_space(s, pos);
    if !(p1 < s.len() && s[p1] == 60) {
        Err(ParseError { pos: p1 as usize, expected: Expected::OpenAngle })
    } else {
        match spec_name(s, p1 + 1) {
            Err(e) => Err(e),
            Ok((name, p2)) => {
                let (attrs, p3) = spec_attributes(s, p2);
                if !(p3 < s.len() && s[p3] == 62) {
                    Err(ParseError { pos: p3 as usize, expected: Expected::Gt })
                } else {
                    Ok(((name, attrs), p3 + 1))
                }
            },
        }
    }
}

/// `space < / name >`; the name is returned but never matched against the open tag.
pub open spec fn spec_close_tag(s: Seq<u8>, pos: int) -> Result<(Seq<char>, int), ParseError> {
    let p1 = spec_skip_space(s, pos);
    if !(p1 < s.len() && s[p1] == 60) {
        Err(ParseError { pos: p1 as usize, expected: Expected::OpenAngle })
    } else if !(p1 + 1 < s.len() && s[p1 + 1] == 47) {
        Err(ParseError { pos: (p1 + 1) as usize, expected: Expected::Slash })
    } else {
        match spec_name(s, p1 + 2) {
            Err(e) => Err(e),
            Ok((name, p2)) => {
                if !(p2 < s.len() && s[p2] == 62) {
                    Err(ParseError { pos: p2 as usize, expected: Expected::Gt })
                } else {
                    Ok((name, p2 + 1))
                }
            },
        }
    }
}

/// The fixed prefix `<meta ` (with exactly one trailing space).
pub open spec fn has_meta_start(s: Seq<u8>, pos: int) -> bool {
    &&& 0 <= pos
    &&& pos + 6 <= s.len()
    &&& s[pos] == 60
    &&& s[pos + 1] == 109
    &&& s[pos + 2] == 101
    &&& s[pos + 3] == 116
    &&& s[pos + 4] == 97
    &&& s[pos + 5] == 32
}

/// `<meta attributes>`: the only void element the grammar knows.
pub open spec fn spec_meta(s: Seq<u8>, pos: int) -> Result<
    (Map<Seq<char>, Seq<char>>, int),
    ParseError,
> {
    if !has_meta_start(s, pos) {
        Err(ParseError { pos: pos as usize, expected: Expected::MetaStart })
    } else {
        let (attrs, p2) = spec_attributes(s, pos + 6);
        if !(p2 < s.len() && s[p2] == 62) {
            Err(ParseError { pos: p2 as usize, expected: Expected::Gt })
        } else {
            Ok((attrs, p2 + 1))
        }
    }
}

/// One or more bytes other than `<`, taken verbatim and decoded.
pub open spec fn spec_text(s: Seq<u8>, pos: int) -> Result<(Seq<char>, int), ParseError> {
    let e = run_end(s, pos, ByteClass::TextByte);
    if e == pos {
        Err(ParseError { pos: pos as usize, expected: Expected::TextRun })
    } else if !valid_utf8(s.subrange(pos, e)) {
        Err(ParseError { pos: pos as usize, expected: Expected::Encoding })
    } else {
        Ok((decode_utf8(s.subrange(pos, e)), e))
    }
}

/// One child: a meta tag, else a text run, else a nested element, in that order.
pub open spec fn spec_child(s: Seq<u8>, pos: int) -> Result<(SpecNode, int), ParseError>
    decreases s.len() - pos, 1int,
{
    match spec_meta(s, pos) {
        Ok((attrs, p2)) => Ok(
            (
                SpecNode {
                    node_type: SpecNodeType::Meta(SpecMetaData { attributes: attrs }),
                    children: Seq::empty(),
                },
                p2,
            ),
        ),
        Err(_) => match spec_text(s, pos) {
            Ok((txt, p2)) => Ok(
                (SpecNode { node_type: SpecNodeType::Text(txt), children: Seq::empty() }, p2),
            ),
            Err(_) => spec_element(s, pos),
        },
    }
}

/// Zero or more children, each tried at the position the previous one ended.
pub open spec fn spec_children(s: Seq<u8>, pos: int) -> (Seq<SpecNode>, int)
    decreases s.len() - pos, 2int,
{
    match spec_child(s, pos) {
        Ok((n, p2)) => {
            if pos < p2 <= s.len() {
                let (rest, p3) = spec_children(s, p2);
                (seq![n] + rest, p3)
            } else {
                (seq![n], p2)
            }
        },
        Err(_) => (Seq::empty(), pos),
    }
}

/// `open_tag space children close_tag`; the close tag's name is not checked.
pub open spec fn spec_element(s: Seq<u8>, pos: int) -> Result<(SpecNode, int), ParseError>
    decreases s.len() - pos, 0int,
{
    match spec_open_tag(s, pos) {
        Err(e) => Err(e),
        Ok(((name, attrs), p1)) => {
            let p2 = spec_skip_space(s, p1);
            if pos < p2 <= s.len() {
                let (cs, p3) = spec_children(s, p2);
                match spec_close_tag(s, p3) {
                    Err(e) => Err(e),
                    Ok((_close_name, p4)) => Ok(
                        (
                            SpecNode {
                                node_type: SpecNodeType::Element(
                                    SpecElementData { tag_name: name, attributes: attrs },
                                ),
                                children: cs,
                            },
                            p4,
                        ),
                    ),
                }
            } else {
                Err(ParseError { pos: p2 as usize, expected: Expected::OpenAngle })
            }
        },
    }
}

/// The literal `<!DOCTYPE html>`, byte for byte.
pub open spec fn has_doctype(s: Seq<u8>, pos: int) -> bool {
    &&& 0 <= pos
    &&& pos + 15 <= s.len()
    &&& s[pos] == 60
    &&& s[pos + 1] == 33
    &&& s[pos + 2] == 68
    &&& s[pos + 3] == 79
    &&& s[pos + 4] == 67
    &&& s[pos + 5] == 84
    &&& s[pos + 6] == 89
    &&& s[pos + 7] == 80
    &&& s[pos + 8] == 69
    &&& s[pos + 9] == 32
    &&& s[pos + 10] == 104
    &&& s[pos + 11] == 116
    &&& s[pos + 12] == 109
    &&& s[pos + 13] == 108
    &&& s[pos + 14] == 62
}

pub open spec fn spec_doctype(s: Seq<u8>, pos: int) -> Result<int, ParseError> {
    if has_doctype(s, pos) {
        Ok(pos + 15)
    } else {
        Err(ParseError { pos: pos as usize, expected: Expected::Doctype })
    }
}

/// Optional whitespace, an optional doctype, whitespace, one root element.
/// Bytes after the root element are ignored: the grammar never anchors at
/// the end of input.
pub open spec fn spec_document(s: Seq<u8>) -> Result<(SpecDocument, int), ParseError> {
    let p1 = spec_skip_space(s, 0);
    let p2: int = if has_doctype(s, p1) {
        p1 + 15
    } else {
        p1
    };
    let p3 = spec_skip_space(s, p2);
    match spec_element(s, p3) {
        Err(e) => Err(e),
        Ok((root, p4)) => Ok((SpecDocument { root_node: root, base_url: Seq::empty() }, p4)),
    }
}

pub open spec fn comment_close_at(s: Seq<u8>, pos: int) -> bool {
    &&& 0 <= pos
    &&& pos + 3 <= s.len()
    &&& s[pos] == 45
    &&& s[pos + 1] == 45
    &&& s[pos + 2] == 62
}

/// The first position at or after `pos` where `-->` stands, if any.
pub open spec fn find_comment_close(s: Seq<u8>, pos: int) -> Option<int>
    decreases s.len() - pos,
{
    if comment_close_at(s, pos) {
        Some(pos)
    } else if 0 <= pos && pos < s.len() {
        find_comment_close(s, pos + 1)
    } else {
        None
    }
}

pub open spec fn has_comment_start(s: Seq<u8>, pos: int) -> bool {
    &&& 0 <= pos
    &&& pos + 4 <= s.len()
    &&& s[pos] == 60
    &&& s[pos + 1] == 33
    &&& s[pos + 2] == 45
    &&& s[pos + 3] == 45
}

/// `<!--` then everything up to the first `-->`, decoded.
pub open spec fn spec_comment(s: Seq<u8>, pos: int) -> Result<(Seq<char>, int), ParseError> {
    if !has_comment_start(s, pos) {
        Err(ParseError { pos: pos as usize, expected: Expected::CommentStart })
    } else {
        match find_comment_close(s, pos + 4) {
            None => Err(ParseError { pos: s.len() as usize, expected: Expected::CommentClose }),
            Some(c) => {
                if valid_utf8(s.subrange(pos + 4, c)) {
                    Ok((decode_utf8(s.subrange(pos + 4, c)), c + 3))
                } else {
                    Err(ParseError { pos: (pos + 4) as usize, expected: Expected::Encoding })
                }
            },
        }
    }
}

} // verus!
