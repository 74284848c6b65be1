//! The markup document tree.
//!
//! Raw input is normalized (see `chars`), parsed by an outside markup
//! parser behind a trusted boundary, and converted node by node into
//! the library's own tree, which the verified parser in `content`
//! walks.

use vstd::prelude::*;

verus! {

/// One attribute of a markup element.  An attribute may be present
/// without a value (`<font size>`), which the parser treats as absent.
pub struct Attr {
    pub key: String,
    pub value: Option<String>,
}

/// One element of the markup tree.
pub struct MarkupElement {
    pub name: String,
    pub attrs: Vec<Attr>,
    pub children: Vec<MarkupNode>,
}

/// One node of the markup tree.
pub enum MarkupNode {
    Text(String),
    Element(MarkupElement),
    Comment,
}

/// The value of the first attribute with the given key: None where no
/// attribute has the key, Some(None) where it has no value.
pub open spec fn attr_value(attrs: Seq<Attr>, key: Seq<char>) -> Option<Option<Seq<char>>>
    decreases attrs.len(),
{
    if attrs.len() == 0 {
        None
    } else if attrs[0].key@ == key {
        Some(
            match attrs[0].value {
                Some(v) => Some(v@),
                None => None,
            },
        )
    } else {
        attr_value(attrs.drop_first(), key)
    }
}

/// First-match attribute lookup against `attr_value`.
pub fn get_attr(attrs: &Vec<Attr>, key: &str) -> (r: Option<Option<String>>)
    ensures
        match r {
            None => attr_value(attrs@, key@) is None,
            Some(None) => attr_value(attrs@, key@) == Some(Option::<Seq<char>>::None),
            Some(Some(v)) => attr_value(attrs@, key@) == Some(Some(v@)),
        },
{
    proof {
        assert(attrs@.skip(0) =~= attrs@);
    }
    let mut i: usize = 0;
    while i < attrs.len()
        invariant
            i <= attrs@.len(),
            attr_value(attrs@, key@) == attr_value(attrs@.skip(i as int), key@),
        decreases attrs@.len() - i,
    {
        proof {
            assert(attrs@.skip(i as int)[0] == attrs@[i as int]);
            assert(attrs@.skip(i as int).drop_first() =~= attrs@.skip(i + 1 as int));
        }
        if crate::chars::str_eq(attrs[i].key.as_str(), key) {
            return match &attrs[i].value {
                Some(v) => Some(Some(v.clone())),
                None => Some(None),
            };
        }
        i += 1;
    }
    proof {
        assert(attrs@.skip(attrs@.len() as int) =~= Seq::<Attr>::empty());
    }
    None
}

/// Whether the outside markup parser accepts a string as well-formed
/// markup: a function of the string alone.
pub uninterp spec fn markup_accepts(s: Seq<char>) -> bool;

/// That `nodes` is a parse of `s`.  The tree the outside parser returns
/// is not a function of the string alone — an element's attributes come
/// back in an unspecified order — so this is a relation that holds of
/// every tree handed back for `s`.
pub uninterp spec fn tree_of(s: Seq<char>, nodes: Seq<MarkupNode>) -> bool;

/// A literal line feed and an explicit break marker admit exactly the
/// same parse outcomes: the two spellings normalize to one string, so
/// the outside parser accepts one exactly when it accepts the other,
/// and any tree that is a parse of one is a parse of the other.
pub proof fn lemma_break_spellings_parse_alike(a: Seq<char>, b: Seq<char>)
    ensures
        markup_accepts(crate::chars::spec_normalize(a + seq!['\n'] + b)) == markup_accepts(
            crate::chars::spec_normalize(a + crate::chars::break_tag() + b),
        ),
        forall|nodes: Seq<MarkupNode>|
            #[trigger] tree_of(crate::chars::spec_normalize(a + seq!['\n'] + b), nodes) == tree_of(
                crate::chars::spec_normalize(a + crate::chars::break_tag() + b),
                nodes,
            ),
{
    crate::chars::lemma_newline_equals_break_marker(a, b);
}

/// Relies on the html_parser crate's Node type, which the conversion
/// below takes apart.
#[verifier::external_type_specification]
#[verifier::external_body]
pub struct ExNode(html_parser::Node);

/// Relies on html_parser::Node's three variants: a text node's string,
/// an element's name, attribute map and children, and comments, which
/// carry nothing this library reads.  Converts one node, recursing into
/// children; the attribute map's iteration order is unspecified, so
/// nothing is stated of the result.
#[verifier::external_body]
fn convert_node(n: &html_parser::Node) -> MarkupNode {
    match n {
        html_parser::Node::Text(s) => MarkupNode::Text(s.clone()),
        html_parser::Node::Element(e) => MarkupNode::Element(MarkupElement {
            name: e.name.clone(),
            attrs: e.attributes.iter().map(
                |kv: (&String, &Option<String>)| Attr { key: kv.0.clone(), value: kv.1.clone() },
            ).collect(),
            children: e.children.iter().map(convert_node).collect(),
        }),
        html_parser::Node::Comment(_) => MarkupNode::Comment,
    }
}

/// Relies on html_parser::Dom::parse: the document's root nodes where
/// the input is well-formed markup, None otherwise.  Whether the parse
/// succeeds depends on the string alone; the returned tree is a parse
/// of the string, pinned no further because an element's attribute
/// order is unspecified.  The verified walk takes whatever tree comes
/// back.
#[verifier::external_body]
pub fn parse_markup(s: &str) -> (r: Option<Vec<MarkupNode>>)
    ensures
        match r {
            Some(v) => markup_accepts(s@) && tree_of(s@, v@),
            None => !markup_accepts(s@),
        },
{
    match html_parser::Dom::parse(s) {
        Ok(dom) => Some(dom.children.iter().map(convert_node).collect()),
        Err(_) => None,
    }
}

} // verus!
