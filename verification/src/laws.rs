//! Laws that relate several parts of the grammar, proved once for all inputs.

use vstd::prelude::*;
use vstd::utf8::{decode_utf8, valid_utf8};
use crate::dom::{SpecDocument, SpecElementData, SpecNode, SpecNodeType};
use crate::grammar::{
    attrs_fold, has_doctype, in_class, lemma_run_end_exact, spec_attr_list, spec_attribute,
    spec_attributes, spec_child, spec_children, spec_close_tag, spec_document, spec_element,
    spec_meta, spec_name, spec_open_tag, spec_skip_space, spec_text, ByteClass, ParseError,
};

verus! {

/// Last write wins: after folding an attribute list that ends with `(k, v)`,
/// the key `k` is bound to `v`, whatever bindings came before it.
pub proof fn lemma_attrs_fold_last_wins(
    m: Map<Seq<char>, Seq<char>>,
    l: Seq<(Seq<char>, Seq<char>)>,
    k: Seq<char>,
    v: Seq<char>,
)
    ensures
        attrs_fold(m, l.push((k, v))).contains_key(k),
        attrs_fold(m, l.push((k, v)))[k] == v,
    decreases l.len(),
{
    if l.len() == 0 {
        assert(l.push((k, v))[0] == (k, v));
        assert(l.push((k, v)).drop_first() =~= Seq::<(Seq<char>, Seq<char>)>::empty());
        assert(attrs_fold(m.insert(k, v), Seq::empty()) == m.insert(k, v));
        assert(attrs_fold(m, l.push((k, v))) == m.insert(k, v));
    } else {
        assert(l.push((k, v))[0] == l[0]);
        assert(l.push((k, v)).drop_first() =~= l.drop_first().push((k, v)));
        lemma_attrs_fold_last_wins(m.insert(l[0].0, l[0].1), l.drop_first(), k, v);
    }
}

/// A key that no pair in the list binds keeps its binding from the base map.
pub proof fn lemma_attrs_fold_absent(
    m: Map<Seq<char>, Seq<char>>,
    l: Seq<(Seq<char>, Seq<char>)>,
    k: Seq<char>,
)
    requires
        forall|i: int| 0 <= i < l.len() ==> l[i].0 != k,
    ensures
        attrs_fold(m, l).contains_key(k) == m.contains_key(k),
        m.contains_key(k) ==> attrs_fold(m, l)[k] == m[k],
    decreases l.len(),
{
    if l.len() > 0 {
        assert(l.drop_first().len() == l.len() - 1);
        assert(forall|i: int| 0 <= i < l.drop_first().len() ==> l.drop_first()[i].0 != k);
        lemma_attrs_fold_absent(m.insert(l[0].0, l[0].1), l.drop_first(), k);
    }
}

/// Parsing `<t>s</t>` yields an element named `t`, with no attributes and a
/// single text child holding exactly `s`, for every alphanumeric tag name `t`
/// and every nonempty well-formed text `s` that holds no `<` and does not
/// begin with whitespace. (Whitespace right after an open tag is consumed as
/// layout before the first child, so a text beginning with it would come back
/// trimmed; such inputs are excluded here.)
#[verifier::rlimit(100)]
pub proof fn lemma_tag_wraps_text(t: Seq<u8>, s: Seq<u8>)
    requires
        t.len() > 0,
        forall|i: int| 0 <= i < t.len() ==> in_class(ByteClass::Alphanum, t[i]),
        s.len() > 0,
        forall|i: int| 0 <= i < s.len() ==> in_class(ByteClass::TextByte, s[i]),
        !in_class(ByteClass::Space, s[0]),
        valid_utf8(s),
    ensures
        spec_document(seq![60u8] + t + seq![62u8] + s + seq![60u8, 47u8] + t + seq![62u8])
            == Ok::<(SpecDocument, int), ParseError>(
            (
                SpecDocument {
                    root_node: SpecNode {
                        node_type: SpecNodeType::Element(
                            SpecElementData {
                                tag_name: decode_utf8(t),
                                attributes: Map::empty(),
                            },
                        ),
                        children: seq![
                            SpecNode {
                                node_type: SpecNodeType::Text(decode_utf8(s)),
                                children: Seq::empty(),
                            },
                        ],
                    },
                    base_url: Seq::empty(),
                },
                2 * (t.len() as int) + s.len() + 5,
            ),
        ),
{
    let tl = t.len() as int;
    let sl = s.len() as int;
    let u = seq![60u8] + t + seq![62u8] + s + seq![60u8, 47u8] + t + seq![62u8];
    assert(u.len() == 2 * tl + sl + 5);
    assert(u[0] == 60);
    assert(forall|i: int| 0 <= i < tl ==> u[1 + i] == t[i]);
    assert(u[1 + tl] == 62);
    assert(forall|i: int| 0 <= i < sl ==> u[2 + tl + i] == s[i]);
    assert(u[2 + tl + sl] == 60);
    assert(u[3 + tl + sl] == 47);
    assert(forall|i: int| 0 <= i < tl ==> u[4 + tl + sl + i] == t[i]);
    assert(u[4 + 2 * tl + sl] == 62);

    // No leading whitespace and no doctype: the root element starts at 0.
    assert(spec_skip_space(u, 0) == 0);
    assert(t[0] != 33);
    assert(!has_doctype(u, 0));

    // The open tag `<t>` with an empty attribute list.
    lemma_run_end_exact(u, 1, 1 + tl, ByteClass::Alphanum);
    assert(u.subrange(1, 1 + tl) =~= t);
    assert(spec_name(u, 1) == Ok::<(Seq<char>, int), ParseError>((decode_utf8(t), 1 + tl)));
    assert(spec_skip_space(u, 1 + tl) == 1 + tl);
    lemma_run_end_exact(u, 1 + tl, 1 + tl, ByteClass::Alpha);
    assert(spec_attribute(u, 1 + tl) is Err);
    assert(spec_attr_list(u, 1 + tl) == (Seq::<(Seq<char>, Seq<char>)>::empty(), 1 + tl));
    assert(spec_attributes(u, 1 + tl).0 =~= Map::<Seq<char>, Seq<char>>::empty());
    assert(spec_open_tag(u, 0) == Ok::<((Seq<char>, Map<Seq<char>, Seq<char>>), int), ParseError>(
        ((decode_utf8(t), spec_attributes(u, 1 + tl).0), 2 + tl),
    ));

    // The one text child: all of `s`, stopped by the `<` of the close tag.
    assert(spec_skip_space(u, 2 + tl) == 2 + tl);
    lemma_run_end_exact(u, 2 + tl, 2 + tl + sl, ByteClass::TextByte);
    assert(u.subrange(2 + tl, 2 + tl + sl) =~= s);
    assert(!(u[2 + tl] == 60));
    assert(spec_meta(u, 2 + tl) is Err);
    assert(spec_text(u, 2 + tl) == Ok::<(Seq<char>, int), ParseError>(
        (decode_utf8(s), 2 + tl + sl),
    ));
    let textnode = SpecNode { node_type: SpecNodeType::Text(decode_utf8(s)), children: Seq::empty() };
    assert(spec_child(u, 2 + tl) == Ok::<(SpecNode, int), ParseError>((textnode, 2 + tl + sl)));

    // After the text, no further child parses: `</` opens no tag.
    assert(spec_meta(u, 2 + tl + sl) is Err);
    lemma_run_end_exact(u, 2 + tl + sl, 2 + tl + sl, ByteClass::TextByte);
    assert(spec_text(u, 2 + tl + sl) is Err);
    assert(spec_skip_space(u, 2 + tl + sl) == 2 + tl + sl);
    lemma_run_end_exact(u, 3 + tl + sl, 3 + tl + sl, ByteClass::Alphanum);
    assert(spec_name(u, 3 + tl + sl) is Err);
    assert(spec_open_tag(u, 2 + tl + sl) is Err);
    assert(spec_element(u, 2 + tl + sl) is Err);
    assert(spec_child(u, 2 + tl + sl) is Err);
    assert(spec_children(u, 2 + tl + sl) == (Seq::<SpecNode>::empty(), 2 + tl + sl));
    assert(spec_children(u, 2 + tl).0 =~= seq![textnode]);
    assert(spec_children(u, 2 + tl).1 == 2 + tl + sl);

    // The close tag `</t>`.
    lemma_run_end_exact(u, 4 + tl + sl, 4 + 2 * tl + sl, ByteClass::Alphanum);
    assert(u.subrange(4 + tl + sl, 4 + 2 * tl + sl) =~= t);
    assert(spec_close_tag(u, 2 + tl + sl) == Ok::<(Seq<char>, int), ParseError>(
        (decode_utf8(t), 5 + 2 * tl + sl),
    ));

    let root = SpecNode {
        node_type: SpecNodeType::Element(
            SpecElementData { tag_name: decode_utf8(t), attributes: Map::empty() },
        ),
        children: seq![textnode],
    };
    assert(spec_element(u, 0) == Ok::<(SpecNode, int), ParseError>((root, 5 + 2 * tl + sl)));
    assert(spec_document(u) == Ok::<(SpecDocument, int), ParseError>(
        (SpecDocument { root_node: root, base_url: Seq::empty() }, 5 + 2 * tl + sl),
    ));
}

} // verus!
