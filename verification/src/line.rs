//! Line geometry: one line of runs and its vertical extent.
//!
//! Spacing factors are multiples of one half, so that line heights stay
//! in integers: a factor of 3 halves is the inter-line spacing of 1.5,
//! 2 halves is a line's own box, 1 half is the half-line used to center
//! a line within its spaced slot.  `line_height` rounds to the nearest
//! pixel: it equals round(max_text_height * halves / 2).

use vstd::prelude::*;

use crate::text::{Text, TextV};

verus! {

/// Inter-line spacing of 1.5, in halves.
pub const LINE_SPACING_HALVES: u32 = 3;

/// A line's own box: spacing of 1.0, in halves.
pub const SINGLE_HALVES: u32 = 2;

/// Half a line: spacing of 0.5, in halves.
pub const HALF_HALVES: u32 = 1;

/// One line: its runs in document order and the running maximum of the
/// runs' measured heights.
pub struct LineInfo {
    pub max_text_height: u32,
    pub texts: Vec<Text>,
}

#[verifier::ext_equal]
pub struct LineInfoV {
    pub max_text_height: u32,
    pub texts: Seq<TextV>,
}

impl View for LineInfo {
    type V = LineInfoV;

    open spec fn view(&self) -> LineInfoV {
        LineInfoV {
            max_text_height: self.max_text_height,
            texts: Seq::new(self.texts@.len(), |i: int| self.texts@[i]@),
        }
    }
}

/// round(max_text_height * halves / 2): the line's vertical extent for
/// a spacing factor given in halves.
pub open spec fn spec_line_height(max_text_height: u32, halves: u32) -> int {
    (max_text_height * halves + 1) / 2
}

/// Rounding keeps order: a taller line never yields a smaller height,
/// whatever the spacing factor.
pub proof fn lemma_line_height_monotone(m1: u32, m2: u32, halves: u32)
    requires
        m1 <= m2,
    ensures
        spec_line_height(m1, halves) <= spec_line_height(m2, halves),
{
    assert(m1 * halves <= m2 * halves) by (nonlinear_arith)
        requires
            0 <= m1 <= m2,
            halves >= 0,
    ;
}

impl LineInfoV {
    /// A line with no runs yet.
    pub open spec fn empty() -> LineInfoV {
        LineInfoV { max_text_height: 0, texts: Seq::<TextV>::empty() }
    }

    pub open spec fn is_empty(self) -> bool {
        self.texts.len() == 0
    }

    /// The maximum measured height over a sequence of runs.
    pub open spec fn max_height_of(texts: Seq<TextV>) -> int
        decreases texts.len(),
    {
        if texts.len() == 0 {
            0
        } else {
            let rest = Self::max_height_of(texts.drop_last());
            if texts.last().height() > rest {
                texts.last().height() as int
            } else {
                rest
            }
        }
    }

    /// The line's invariant: the recorded maximum is the maximum of the
    /// pushed runs' heights.
    pub open spec fn wf(self) -> bool {
        self.max_text_height == Self::max_height_of(self.texts)
    }
}

impl LineInfo {
    pub fn new() -> (r: LineInfo)
        ensures
            r@ == LineInfoV::empty(),
            r@.wf(),
    {
        let r = LineInfo { max_text_height: 0, texts: Vec::new() };
        proof {
            assert(r@.texts =~= Seq::<TextV>::empty());
            assert(r@ =~= LineInfoV::empty());
        }
        r
    }

    pub fn is_empty(&self) -> (r: bool)
        ensures
            r == self@.is_empty(),
    {
        self.texts.len() == 0
    }

    /// Appends a run and folds its measured height into the running
    /// maximum, which therefore never decreases.
    pub fn push_text(&mut self, text: Text)
        ensures
            final(self)@.texts == old(self)@.texts.push(text@),
            final(self)@.max_text_height == (if text@.height() > old(self)@.max_text_height {
                text@.height()
            } else {
                old(self)@.max_text_height
            }),
            final(self)@.max_text_height >= old(self)@.max_text_height,
            old(self)@.wf() ==> final(self)@.wf(),
    {
        let (_, height) = match &text.metrics {
            Some(m) => (m.width, m.height),
            None => (0, 0),
        };
        if height > self.max_text_height {
            self.max_text_height = height;
        }
        self.texts.push(text);
        proof {
            assert(self@.texts =~= old(self)@.texts.push(self@.texts.last()));
            assert(self@.texts.drop_last() =~= old(self)@.texts);
        }
    }

    /// The line's vertical extent for a spacing factor in halves:
    /// round(max_text_height * halves / 2).
    pub fn line_height(&self, halves: u32) -> (r: u32)
        requires
            spec_line_height(self@.max_text_height, halves) <= u32::MAX,
        ensures
            r == spec_line_height(self@.max_text_height, halves),
    {
        let wide = (self.max_text_height as u64) * (halves as u64);
        ((wide + 1) / 2) as u32
    }
}

} // verus!
