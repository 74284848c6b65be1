//! The parsed document: ordered lines of styled runs, and the verified
//! markup tree walk that builds them.
//!
//! The walk threads an inherited style context down the tree, copying
//! it on descent so sibling subtrees never see each other's changes;
//! text leaves become runs appended to the last line, and `br` elements
//! terminate the current line.

use vstd::prelude::*;

use crate::font::FontId;
use crate::line::{spec_line_height, LineInfo, LineInfoV};
use crate::markup::{markup_accepts, parse_markup, tree_of, MarkupElement, MarkupNode};
use crate::text::{apply_font_attrs, Alignment, MarkupError, RunMetrics, Text, TextV};

verus! {

/// The parsed document: always at least one (possibly empty) line.
pub struct Content {
    pub lines: Vec<LineInfo>,
}

#[verifier::ext_equal]
pub struct ContentV {
    pub lines: Seq<LineInfoV>,
}

impl View for Content {
    type V = ContentV;

    open spec fn view(&self) -> ContentV {
        ContentV { lines: Seq::new(self.lines@.len(), |i: int| self.lines@[i]@) }
    }
}

/// The content a parse starts from: one empty line.
pub open spec fn initial_content() -> ContentV {
    ContentV { lines: seq![LineInfoV::empty()] }
}

impl LineInfoV {
    /// Appending one run to a line: document order is kept and the
    /// running maximum height absorbs the run's measured height.
    pub open spec fn push_run(self, t: TextV) -> LineInfoV {
        LineInfoV {
            max_text_height: if t.height() > self.max_text_height {
                t.height()
            } else {
                self.max_text_height
            },
            texts: self.texts.push(t),
        }
    }
}

impl ContentV {
    /// Every line's recorded maximum is consistent with its runs.
    pub open spec fn wf(self) -> bool {
        &&& self.lines.len() >= 1
        &&& forall|i: int| 0 <= i < self.lines.len() ==> (#[trigger] self.lines[i]).wf()
    }

    /// Appending a run to the last line.
    pub open spec fn push_run(self, t: TextV) -> ContentV {
        ContentV {
            lines: self.lines.update(
                self.lines.len() - 1,
                self.lines.last().push_run(t),
            ),
        }
    }

    /// Terminating the current line: a fresh empty line begins.
    pub open spec fn new_line(self) -> ContentV {
        ContentV { lines: self.lines.push(LineInfoV::empty()) }
    }
}

/// What one styling element does to the parse state and the inherited
/// style: `l`/`r`/`c` set the alignment, `font` overrides style fields
/// from its attributes (a malformed value is fatal), `br` terminates
/// the current line, and any other element changes nothing.
pub open spec fn apply_element_spec(cv: ContentV, e: MarkupElement, t: TextV) -> Result<
    (ContentV, TextV),
    MarkupError,
> {
    if e.name@ == "l"@ {
        Ok((cv, TextV { alignment: Some(Alignment::Left), ..t }))
    } else if e.name@ == "r"@ {
        Ok((cv, TextV { alignment: Some(Alignment::Right), ..t }))
    } else if e.name@ == "c"@ {
        Ok((cv, TextV { alignment: Some(Alignment::Center), ..t }))
    } else if e.name@ == "font"@ {
        match apply_font_attrs(t, e.attrs@) {
            Ok(t2) => Ok((cv, t2)),
            Err(er) => Err(er),
        }
    } else if e.name@ == "br"@ {
        Ok((cv.new_line(), t))
    } else {
        Ok((cv, t))
    }
}

/// The depth-first walk of one node: the inherited style is copied,
/// stamped with the 1-based index of the current line, and a text leaf
/// becomes a run on the last line; an element first applies its own
/// effect, then its children are walked under the updated style.
pub open spec fn parse_node_spec(cv: ContentV, node: MarkupNode, outer: TextV) -> Result<
    ContentV,
    MarkupError,
>
    decreases node,
{
    let t = TextV { line_index: cv.lines.len() as usize, ..outer };
    match node {
        MarkupNode::Text(s) => Ok(cv.push_run(TextV { content: s@, ..t })),
        MarkupNode::Element(e) => match apply_element_spec(cv, e, t) {
            Ok((cv1, t1)) => parse_nodes_spec(cv1, e.children@, t1),
            Err(er) => Err(er),
        },
        MarkupNode::Comment => Ok(cv),
    }
}

/// The walk of a node sequence, in document order, stopping at the
/// first fatal error.
pub open spec fn parse_nodes_spec(cv: ContentV, nodes: Seq<MarkupNode>, outer: TextV) -> Result<
    ContentV,
    MarkupError,
>
    decreases nodes,
{
    if nodes.len() == 0 {
        Ok(cv)
    } else {
        match parse_node_spec(cv, nodes[0], outer) {
            Ok(cv1) => parse_nodes_spec(cv1, nodes.drop_first(), outer),
            Err(er) => Err(er),
        }
    }
}

/// The number of `br` elements in one node's subtree.
pub open spec fn count_br_node(node: MarkupNode) -> int
    decreases node,
{
    match node {
        MarkupNode::Element(e) => (if e.name@ == "br"@ {
            1int
        } else {
            0int
        }) + count_br_nodes(e.children@),
        _ => 0,
    }
}

/// The number of `br` elements in a sequence of subtrees.
pub open spec fn count_br_nodes(nodes: Seq<MarkupNode>) -> int
    decreases nodes,
{
    if nodes.len() == 0 {
        0
    } else {
        count_br_node(nodes[0]) + count_br_nodes(nodes.drop_first())
    }
}

/// Pushing a run onto a well-formed line keeps it well formed.
proof fn lemma_push_run_wf(l: LineInfoV, t: TextV)
    requires
        l.wf(),
    ensures
        l.push_run(t).wf(),
{
    assert(l.push_run(t).texts.drop_last() =~= l.texts);
}

/// Pushing a run never lowers a line's vertical extent: the maximum
/// height is monotone under pushes, and rounding keeps that order at
/// every spacing factor.
pub proof fn lemma_push_run_height_monotone(l: LineInfoV, t: TextV, halves: u32)
    ensures
        l.push_run(t).max_text_height >= l.max_text_height,
        spec_line_height(l.push_run(t).max_text_height, halves) >= spec_line_height(
            l.max_text_height,
            halves,
        ),
{
    crate::line::lemma_line_height_monotone(
        l.max_text_height,
        l.push_run(t).max_text_height,
        halves,
    );
}

/// A walk that succeeds keeps the content well formed and grows the
/// line count by exactly the number of `br` elements it visits.  This
/// is the general line-count law: a document with N break markers
/// parses to N + 1 lines.
pub proof fn lemma_parse_node_props(cv: ContentV, node: MarkupNode, outer: TextV)
    requires
        cv.wf(),
    ensures
        match parse_node_spec(cv, node, outer) {
            Ok(cv2) => cv2.wf() && cv2.lines.len() == cv.lines.len() + count_br_node(node),
            Err(_) => true,
        },
    decreases node,
{
    reveal_strlit("l");
    reveal_strlit("r");
    reveal_strlit("c");
    reveal_strlit("font");
    reveal_strlit("br");
    assert("l"@.len() == 1 && "r"@.len() == 1 && "c"@.len() == 1 && "font"@.len() == 4
        && "br"@.len() == 2);
    assert("l"@ != "br"@ && "r"@ != "br"@ && "c"@ != "br"@ && "font"@ != "br"@);
    let t = TextV { line_index: cv.lines.len() as usize, ..outer };
    match node {
        MarkupNode::Text(s) => {
            let tv = TextV { content: s@, ..t };
            let n = cv.lines.len() as int;
            assert(cv.lines.last() == cv.lines[n - 1]);
            assert(cv.lines[n - 1].wf());
            lemma_push_run_wf(cv.lines[n - 1], tv);
            let cv2 = cv.push_run(tv);
            assert forall|i: int| 0 <= i < cv2.lines.len() implies (
            #[trigger] cv2.lines[i]).wf() by {
                if i != n - 1 {
                    assert(cv2.lines[i] == cv.lines[i]);
                }
            }
        },
        MarkupNode::Element(e) => {
            match apply_element_spec(cv, e, t) {
                Ok((cv1, t1)) => {
                    if e.name@ == "br"@ {
                        assert(LineInfoV::max_height_of(Seq::<TextV>::empty()) == 0);
                        assert(LineInfoV::empty().wf());
                        assert forall|i: int| 0 <= i < cv1.lines.len() implies (
                        #[trigger] cv1.lines[i]).wf() by {
                            if i < cv.lines.len() {
                                assert(cv1.lines[i] == cv.lines[i]);
                            } else {
                                assert(cv1.lines[i] == LineInfoV::empty());
                            }
                        }
                    }
                    lemma_parse_nodes_props(cv1, e.children@, t1);
                },
                Err(_) => {},
            }
        },
        MarkupNode::Comment => {},
    }
}

/// The sequence form of the walk law above.
pub proof fn lemma_parse_nodes_props(cv: ContentV, nodes: Seq<MarkupNode>, outer: TextV)
    requires
        cv.wf(),
    ensures
        match parse_nodes_spec(cv, nodes, outer) {
            Ok(cv2) => cv2.wf() && cv2.lines.len() == cv.lines.len() + count_br_nodes(nodes),
            Err(_) => true,
        },
    decreases nodes,
{
    if nodes.len() > 0 {
        lemma_parse_node_props(cv, nodes[0], outer);
        match parse_node_spec(cv, nodes[0], outer) {
            Ok(cv1) => {
                lemma_parse_nodes_props(cv1, nodes.drop_first(), outer);
            },
            Err(_) => {},
        }
    }
}

/// The walk itself raises only attribute errors: a fatal error from
/// the tree walk always names a font attribute, never the document.
pub proof fn lemma_parse_node_err_kind(cv: ContentV, node: MarkupNode, outer: TextV)
    ensures
        parse_node_spec(cv, node, outer) matches Err(e) ==> e matches MarkupError::InvalidAttribute(
            _,
        ),
    decreases node,
{
    let t = TextV { line_index: cv.lines.len() as usize, ..outer };
    match node {
        MarkupNode::Element(e) => {
            match apply_element_spec(cv, e, t) {
                Ok((cv1, t1)) => {
                    lemma_parse_nodes_err_kind(cv1, e.children@, t1);
                },
                Err(_) => {},
            }
        },
        _ => {},
    }
}

/// The sequence form of the error-kind law above.
pub proof fn lemma_parse_nodes_err_kind(cv: ContentV, nodes: Seq<MarkupNode>, outer: TextV)
    ensures
        parse_nodes_spec(cv, nodes, outer) matches Err(e) ==> e
            matches MarkupError::InvalidAttribute(_),
    decreases nodes,
{
    if nodes.len() > 0 {
        lemma_parse_node_err_kind(cv, nodes[0], outer);
        match parse_node_spec(cv, nodes[0], outer) {
            Ok(cv1) => {
                lemma_parse_nodes_err_kind(cv1, nodes.drop_first(), outer);
            },
            Err(_) => {},
        }
    }
}

impl Content {
    /// A fresh document: one empty line.
    pub fn new() -> (r: Content)
        ensures
            r@ == initial_content(),
            r@.wf(),
    {
        let mut lines: Vec<LineInfo> = Vec::new();
        lines.push(LineInfo::new());
        let r = Content { lines };
        proof {
            assert(r@.lines =~= initial_content().lines);
            assert(r@ =~= initial_content());
        }
        r
    }

    /// The number of lines, empty lines included.
    pub fn line_size(&self) -> (r: usize)
        ensures
            r == self@.lines.len(),
    {
        self.lines.len()
    }

    /// Begins a new, empty line.
    fn new_line(&mut self)
        ensures
            final(self)@ == old(self)@.new_line(),
    {
        self.lines.push(LineInfo::new());
        proof {
            assert(self@.lines =~= old(self)@.lines.push(LineInfoV::empty()));
            assert(self@ =~= old(self)@.new_line());
        }
    }

    /// Appends a run to the last line.
    pub fn push_text(&mut self, text: Text)
        requires
            old(self)@.lines.len() >= 1,
        ensures
            final(self)@ == old(self)@.push_run(text@),
    {
        let ghost tv = text@;
        let mut last = self.lines.pop().unwrap();
        last.push_text(text);
        self.lines.push(last);
        proof {
            assert(self@.lines =~= old(self)@.push_run(tv).lines);
        }
    }

    /// Walks one markup node under an inherited style.
    pub fn parse_node(&mut self, node: &MarkupNode, outer: &Text) -> (r: Result<(), MarkupError>)
        requires
            old(self)@.lines.len() >= 1,
        ensures
            match r {
                Ok(()) => parse_node_spec(old(self)@, *node, outer@) == Ok::<
                    ContentV,
                    MarkupError,
                >(final(self)@),
                Err(e) => parse_node_spec(old(self)@, *node, outer@) == Err::<
                    ContentV,
                    MarkupError,
                >(e),
            },
            final(self)@.lines.len() >= old(self)@.lines.len(),
        decreases node,
    {
        let mut text = outer.duplicate();
        text.line_index = self.lines.len();
        match node {
            MarkupNode::Text(s) => {
                text.content = s.clone();
                self.push_text(text);
                Ok(())
            },
            MarkupNode::Element(e) => {
                match self.parse_element(e, &mut text) {
                    Ok(()) => self.parse_nodes(&e.children, &text),
                    Err(er) => Err(er),
                }
            },
            MarkupNode::Comment => Ok(()),
        }
    }

    /// Walks a sequence of markup nodes in document order.
    pub fn parse_nodes(&mut self, nodes: &Vec<MarkupNode>, outer: &Text) -> (r: Result<
        (),
        MarkupError,
    >)
        requires
            old(self)@.lines.len() >= 1,
        ensures
            match r {
                Ok(()) => parse_nodes_spec(old(self)@, nodes@, outer@) == Ok::<
                    ContentV,
                    MarkupError,
                >(final(self)@),
                Err(e) => parse_nodes_spec(old(self)@, nodes@, outer@) == Err::<
                    ContentV,
                    MarkupError,
                >(e),
            },
            final(self)@.lines.len() >= old(self)@.lines.len(),
        decreases nodes@,
    {
        proof {
            assert(nodes@.skip(0) =~= nodes@);
        }
        let mut i: usize = 0;
        while i < nodes.len()
            invariant
                i <= nodes@.len(),
                self@.lines.len() >= old(self)@.lines.len(),
                self@.lines.len() >= 1,
                parse_nodes_spec(old(self)@, nodes@, outer@) == parse_nodes_spec(
                    self@,
                    nodes@.skip(i as int),
                    outer@,
                ),
            decreases nodes@.len() - i,
        {
            proof {
                assert(nodes@.skip(i as int)[0] == nodes@[i as int]);
                assert(nodes@.skip(i as int).drop_first() =~= nodes@.skip(i + 1 as int));
            }
            match self.parse_node(&nodes[i], outer) {
                Ok(()) => {},
                Err(er) => {
                    return Err(er);
                },
            }
            i += 1;
        }
        proof {
            assert(nodes@.skip(nodes@.len() as int) =~= Seq::<MarkupNode>::empty());
        }
        Ok(())
    }

    /// Applies one element's own effect to the parse state and the
    /// style context being threaded to its children.
    fn parse_element(&mut self, element: &MarkupElement, text: &mut Text) -> (r: Result<
        (),
        MarkupError,
    >)
        ensures
            match r {
                Ok(()) => apply_element_spec(old(self)@, *element, old(text)@) == Ok::<
                    (ContentV, TextV),
                    MarkupError,
                >((final(self)@, final(text)@)),
                Err(e) => apply_element_spec(old(self)@, *element, old(text)@) == Err::<
                    (ContentV, TextV),
                    MarkupError,
                >(e),
            },
            final(self)@.lines.len() >= old(self)@.lines.len(),
    {
        if crate::chars::str_eq(element.name.as_str(), "l") {
            text.alignment = Some(Alignment::Left);
            Ok(())
        } else if crate::chars::str_eq(element.name.as_str(), "r") {
            text.alignment = Some(Alignment::Right);
            Ok(())
        } else if crate::chars::str_eq(element.name.as_str(), "c") {
            text.alignment = Some(Alignment::Center);
            Ok(())
        } else if crate::chars::str_eq(element.name.as_str(), "font") {
            match text.parse_font(element) {
                Ok(()) => Ok(()),
                Err(er) => Err(er),
            }
        } else if crate::chars::str_eq(element.name.as_str(), "br") {
            self.new_line();
            Ok(())
        } else {
            Ok(())
        }
    }

    /// Parses raw markup into a document: the input is normalized so a
    /// literal line feed acts as an explicit break marker, handed to
    /// the outside markup parser, and the resulting tree is walked from
    /// a root style context carrying the given default font.  The
    /// document error comes exactly where the outside parser refuses
    /// the normalized input; an attribute error comes exactly where the
    /// walk of a parse of that input raises it; otherwise the result is
    /// the walk of such a parse.
    pub fn parse_input(raw: &str, default_font: &FontId) -> (r: Result<Content, MarkupError>)
        ensures
            match r {
                Ok(c) => {
                    &&& c@.wf()
                    &&& exists|nodes: Seq<MarkupNode>|
                        tree_of(crate::chars::spec_normalize(raw@), nodes)
                            && #[trigger] parse_nodes_spec(
                            initial_content(),
                            nodes,
                            TextV::initial(default_font@),
                        ) == Ok::<ContentV, MarkupError>(c@)
                },
                Err(MarkupError::InvalidMarkup) => !markup_accepts(
                    crate::chars::spec_normalize(raw@),
                ),
                Err(e) => exists|nodes: Seq<MarkupNode>|
                    tree_of(crate::chars::spec_normalize(raw@), nodes)
                        && #[trigger] parse_nodes_spec(
                        initial_content(),
                        nodes,
                        TextV::initial(default_font@),
                    ) == Err::<ContentV, MarkupError>(e),
            },
    {
        let norm = crate::chars::normalize_input(raw);
        match parse_markup(norm.as_str()) {
            None => Err(MarkupError::InvalidMarkup),
            Some(nodes) => {
                let mut c = Content::new();
                let root = Text::new(default_font.duplicate());
                match c.parse_nodes(&nodes, &root) {
                    Ok(()) => {
                        proof {
                            lemma_parse_nodes_props(
                                initial_content(),
                                nodes@,
                                TextV::initial(default_font@),
                            );
                        }
                        Ok(c)
                    },
                    Err(er) => {
                        proof {
                            lemma_parse_nodes_err_kind(
                                initial_content(),
                                nodes@,
                                TextV::initial(default_font@),
                            );
                        }
                        Err(er)
                    },
                }
            },
        }
    }

    /// The document's vertical extent: the sum of every line's height
    /// at the given spacing factor (an empty line's height is zero).
    pub fn content_height(&self, halves: u32) -> (r: u32)
        requires
            spec_content_height(self@.lines, halves) <= u32::MAX,
        ensures
            r == spec_content_height(self@.lines, halves),
    {
        proof {
            assert(self@.lines.take(0) =~= Seq::<LineInfoV>::empty());
        }
        let mut acc: u64 = 0;
        let mut i: usize = 0;
        while i < self.lines.len()
            invariant
                i <= self@.lines.len(),
                self@.lines.len() == self.lines@.len(),
                acc == spec_content_height(self@.lines.take(i as int), halves),
                acc <= u32::MAX,
                spec_content_height(self@.lines, halves) <= u32::MAX,
            decreases self@.lines.len() - i,
        {
            proof {
                assert(self@.lines.take(i + 1 as int).drop_last() =~= self@.lines.take(i as int));
                assert(self@.lines.take(i + 1 as int).last() == self@.lines[i as int]);
                lemma_content_height_prefix(self@.lines, halves, i + 1 as int);
                lemma_content_height_nonneg(self@.lines.take(i as int), halves);
            }
            let lh = self.lines[i].line_height(halves);
            acc = acc + (lh as u64);
            i += 1;
        }
        proof {
            assert(self@.lines.take(self@.lines.len() as int) =~= self@.lines);
        }
        acc as u32
    }

    /// The total number of runs over all lines, in line order.
    pub fn run_count(&self) -> (r: usize)
        requires
            spec_run_count(self@.lines) <= usize::MAX,
        ensures
            r == spec_run_count(self@.lines),
    {
        proof {
            assert(self@.lines.take(0) =~= Seq::<LineInfoV>::empty());
        }
        let mut acc: usize = 0;
        let mut i: usize = 0;
        while i < self.lines.len()
            invariant
                i <= self@.lines.len(),
                self@.lines.len() == self.lines@.len(),
                acc == spec_run_count(self@.lines.take(i as int)),
                spec_run_count(self@.lines) <= usize::MAX,
            decreases self@.lines.len() - i,
        {
            proof {
                assert(self@.lines.take(i + 1 as int).drop_last() =~= self@.lines.take(i as int));
                assert(self@.lines.take(i + 1 as int).last() == self@.lines[i as int]);
                lemma_run_count_prefix(self@.lines, i + 1 as int);
                lemma_run_count_nonneg(self@.lines.take(i as int));
                assert(self@.lines[i as int].texts.len() == self.lines@[i as int]@.texts.len());
            }
            let n = self.lines[i].texts.len();
            acc = acc + n;
            i += 1;
        }
        proof {
            assert(self@.lines.take(self@.lines.len() as int) =~= self@.lines);
        }
        acc
    }

    /// Hands every run its resolved face handle and measured size, in
    /// line order, and recomputes each line's maximum height by pushing
    /// the measured runs afresh.  The k-th entry of `ms` belongs to the
    /// k-th run of the document.
    pub fn apply_metrics(&mut self, ms: &Vec<RunMetrics>)
        requires
            ms@.len() == spec_run_count(old(self)@.lines),
        ensures
            final(self)@.lines.len() == old(self)@.lines.len(),
            forall|i: int|
                0 <= i < old(self)@.lines.len() ==> {
                    let oldl = old(self)@.lines[i];
                    let newl = #[trigger] final(self)@.lines[i];
                    &&& newl.wf()
                    &&& newl.texts.len() == oldl.texts.len()
                    &&& forall|j: int|
                        0 <= j < oldl.texts.len() ==> #[trigger] newl.texts[j] == (TextV {
                            metrics: Some(
                                ms@[spec_run_count(old(self)@.lines.take(i)) + j],
                            ),
                            ..oldl.texts[j]
                        })
                },
    {
        proof {
            assert(self@.lines.take(0) =~= Seq::<LineInfoV>::empty());
        }
        let ghost oldc = self@;
        let msl = ms.len();
        let mut new_lines: Vec<LineInfo> = Vec::new();
        let mut k: usize = 0;
        let mut i: usize = 0;
        while i < self.lines.len()
            invariant
                i <= oldc.lines.len(),
                oldc == self@,
                oldc.lines.len() == self.lines@.len(),
                ms@.len() == spec_run_count(oldc.lines),
                msl == ms@.len(),
                k == spec_run_count(oldc.lines.take(i as int)),
                new_lines@.len() == i,
                forall|ii: int|
                    0 <= ii < i ==> {
                        let oldl = oldc.lines[ii];
                        let newl = #[trigger] new_lines@[ii]@;
                        &&& newl.wf()
                        &&& newl.texts.len() == oldl.texts.len()
                        &&& forall|j: int|
                            0 <= j < oldl.texts.len() ==> #[trigger] newl.texts[j] == (TextV {
                                metrics: Some(ms@[spec_run_count(oldc.lines.take(ii)) + j]),
                                ..oldl.texts[j]
                            })
                    },
            decreases oldc.lines.len() - i,
        {
            proof {
                assert(oldc.lines.take(i + 1 as int).drop_last() =~= oldc.lines.take(i as int));
                assert(oldc.lines.take(i + 1 as int).last() == oldc.lines[i as int]);
                lemma_run_count_prefix(oldc.lines, i + 1 as int);
                lemma_run_count_nonneg(oldc.lines.take(i as int));
            }
            let mut nl = LineInfo::new();
            let mut j: usize = 0;
            while j < self.lines[i].texts.len()
                invariant
                    i < oldc.lines.len(),
                    oldc == self@,
                    oldc.lines.len() == self.lines@.len(),
                    j <= oldc.lines[i as int].texts.len(),
                    ms@.len() == spec_run_count(oldc.lines),
                    msl == ms@.len(),
                    k == spec_run_count(oldc.lines.take(i as int)) + j,
                    spec_run_count(oldc.lines.take(i as int)) + oldc.lines[
                        i as int
                    ].texts.len() <= spec_run_count(oldc.lines),
                    spec_run_count(oldc.lines.take(i as int)) >= 0,
                    nl@.wf(),
                    nl@.texts.len() == j,
                    forall|jj: int|
                        0 <= jj < j ==> #[trigger] nl@.texts[jj] == (TextV {
                            metrics: Some(ms@[spec_run_count(oldc.lines.take(i as int)) + jj]),
                            ..oldc.lines[i as int].texts[jj]
                        }),
                decreases oldc.lines[i as int].texts.len() - j,
            {
                proof {
                    assert(spec_run_count(oldc.lines.take(i as int)) + j < spec_run_count(
                        oldc.lines,
                    ));
                    assert(k < ms@.len());
                    assert(k < msl);
                }
                let mut t = self.lines[i].texts[j].duplicate();
                t.initialize_font(ms[k]);
                nl.push_text(t);
                k = k + 1;
                j = j + 1;
            }
            new_lines.push(nl);
            i += 1;
        }
        proof {
            assert(oldc.lines.take(oldc.lines.len() as int) =~= oldc.lines);
        }
        self.lines = new_lines;
    }
}

/// Sum of line heights over a sequence of lines.
pub open spec fn spec_content_height(lines: Seq<LineInfoV>, halves: u32) -> int
    decreases lines.len(),
{
    if lines.len() == 0 {
        0
    } else {
        spec_content_height(lines.drop_last(), halves) + spec_line_height(
            lines.last().max_text_height,
            halves,
        )
    }
}

/// Total number of runs over a sequence of lines.
pub open spec fn spec_run_count(lines: Seq<LineInfoV>) -> int
    decreases lines.len(),
{
    if lines.len() == 0 {
        0
    } else {
        spec_run_count(lines.drop_last()) + lines.last().texts.len()
    }
}

pub proof fn lemma_content_height_nonneg(lines: Seq<LineInfoV>, halves: u32)
    ensures
        spec_content_height(lines, halves) >= 0,
    decreases lines.len(),
{
    if lines.len() > 0 {
        lemma_content_height_nonneg(lines.drop_last(), halves);
        assert(lines.last().max_text_height * halves >= 0) by (nonlinear_arith);
    }
}

/// A prefix of the lines never sums to more than the whole.
pub proof fn lemma_content_height_prefix(lines: Seq<LineInfoV>, halves: u32, k: int)
    requires
        0 <= k <= lines.len(),
    ensures
        spec_content_height(lines.take(k), halves) <= spec_content_height(lines, halves),
    decreases lines.len() - k,
{
    if k == lines.len() {
        assert(lines.take(k) =~= lines);
    } else {
        lemma_content_height_prefix(lines, halves, k + 1);
        assert(lines.take(k + 1).drop_last() =~= lines.take(k));
        assert(lines.take(k + 1).last() == lines[k]);
        assert(lines[k].max_text_height * halves >= 0) by (nonlinear_arith);
    }
}

pub proof fn lemma_run_count_nonneg(lines: Seq<LineInfoV>)
    ensures
        spec_run_count(lines) >= 0,
    decreases lines.len(),
{
    if lines.len() > 0 {
        lemma_run_count_nonneg(lines.drop_last());
    }
}

pub proof fn lemma_run_count_prefix(lines: Seq<LineInfoV>, k: int)
    requires
        0 <= k <= lines.len(),
    ensures
        spec_run_count(lines.take(k)) <= spec_run_count(lines),
    decreases lines.len() - k,
{
    if k == lines.len() {
        assert(lines.take(k) =~= lines);
    } else {
        lemma_run_count_prefix(lines, k + 1);
        assert(lines.take(k + 1).drop_last() =~= lines.take(k));
        assert(lines.take(k + 1).last() == lines[k]);
    }
}

} // verus!
