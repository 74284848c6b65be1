//! The run model: one contiguous styled text fragment.
//!
//! A run is built during parsing with its style threaded down from the
//! enclosing markup elements; its font face handle and measured size
//! arrive later, once the caller has resolved and measured fonts, and
//! must be set before the run takes part in line geometry or layout.

use vstd::prelude::*;

use crate::chars::{parse_size, spec_parse_size};
use crate::color::{css_color_of, parse_css_color, Rgba};
use crate::font::{FontId, FontIdV, Style, Weight};
use crate::markup::{attr_value, get_attr, Attr, MarkupElement};

verus! {

#[derive(PartialEq, Eq, Structural, Debug, Copy, Clone)]
pub enum Alignment {
    Left,
    Right,
    Center,
}

/// What measuring a run against its resolved font face yields: the
/// face's handle and the run's rendered glyph-box size and ascent, all
/// in device pixels (the ascent already rounded to the nearest pixel).
#[derive(PartialEq, Eq, Structural, Debug, Copy, Clone)]
pub struct RunMetrics {
    pub face: usize,
    pub width: u32,
    pub height: u32,
    pub ascent: u32,
}

/// One styled text fragment.  The font size is kept in thousandths of
/// a pixel, so fractional sizes in the markup stay exact to that
/// resolution.
pub struct Text {
    pub content: String,
    pub font_size: u32,
    pub font_color: Rgba,
    pub background_color: Rgba,
    pub font_id: FontId,
    pub metrics: Option<RunMetrics>,
    pub line_index: usize,
    pub alignment: Option<Alignment>,
}

#[verifier::ext_equal]
pub struct TextV {
    pub content: Seq<char>,
    pub font_size: u32,
    pub font_color: Rgba,
    pub background_color: Rgba,
    pub font_id: FontIdV,
    pub metrics: Option<RunMetrics>,
    pub line_index: usize,
    pub alignment: Option<Alignment>,
}

impl View for Text {
    type V = TextV;

    open spec fn view(&self) -> TextV {
        TextV {
            content: self.content@,
            font_size: self.font_size,
            font_color: self.font_color,
            background_color: self.background_color,
            font_id: self.font_id@,
            metrics: self.metrics,
            line_index: self.line_index,
            alignment: self.alignment,
        }
    }
}

impl TextV {
    /// The style context a parse starts from: empty content, size 120
    /// (kept in thousandths), black text on an opaque white background,
    /// the given default font, no line yet, no explicit alignment.
    pub open spec fn initial(font_id: FontIdV) -> TextV {
        TextV {
            content: Seq::<char>::empty(),
            font_size: 120_000,
            font_color: Rgba::black(),
            background_color: Rgba::white(),
            font_id,
            metrics: None,
            line_index: 0,
            alignment: None,
        }
    }

    /// A run's measured glyph-box height; zero until it is measured.
    pub open spec fn height(self) -> u32 {
        match self.metrics {
            Some(m) => m.height,
            None => 0,
        }
    }

    /// The alignment a run resolves to: its explicit alignment where it
    /// carries one, else Left on the first line and Right on every
    /// other line.
    pub open spec fn resolved_alignment(self) -> Alignment {
        match self.alignment {
            Some(a) => a,
            None => if self.line_index == 1 {
                Alignment::Left
            } else {
                Alignment::Right
            },
        }
    }

    /// The content a run is measured by: a single trailing space is
    /// replaced by a representative glyph so that intentional trailing
    /// padding does not measure as zero width.
    pub open spec fn measured_content(self) -> Seq<char> {
        if self.content.len() > 0 && self.content.last() == ' ' {
            self.content.drop_last().push('0')
        } else {
            self.content
        }
    }
}

/// The trailing-space substitution never shortens a run's measured
/// content: a run ending in a space is measured at the full length of
/// its text, with the space's slot filled by a representative glyph, so
/// the intentional gap cannot collapse to the width of the text without
/// it.
pub proof fn lemma_measured_content_len(t: TextV)
    ensures
        t.measured_content().len() == t.content.len(),
        t.content.len() > 0 && t.content.last() == ' ' ==> t.measured_content().last() == '0',
{
}

/// What applying a font element's attributes to an inherited style
/// yields: each of the six attributes, where present with a value,
/// overrides the corresponding field; a size that is not an unsigned
/// decimal number or a color that is not CSS color syntax is a fatal
/// error naming the attribute.
pub open spec fn apply_font_attrs(t: TextV, attrs: Seq<Attr>) -> Result<TextV, MarkupError> {
    let r_size = match attr_value(attrs, "size"@) {
        Some(Some(v)) => match spec_parse_size(v) {
            Some(x) => Ok(TextV { font_size: x, ..t }),
            None => Err(MarkupError::InvalidAttribute(AttrKind::Size)),
        },
        _ => Ok(t),
    };
    match r_size {
        Err(e) => Err(e),
        Ok(t1) => {
            let r_color = match attr_value(attrs, "color"@) {
                Some(Some(v)) => match css_color_of(v) {
                    Some(c) => Ok(TextV { font_color: c, ..t1 }),
                    None => Err(MarkupError::InvalidAttribute(AttrKind::Color)),
                },
                _ => Ok(t1),
            };
            match r_color {
                Err(e) => Err(e),
                Ok(t2) => {
                    let r_bg = match attr_value(attrs, "background"@) {
                        Some(Some(v)) => match css_color_of(v) {
                            Some(c) => Ok(TextV { background_color: c, ..t2 }),
                            None => Err(MarkupError::InvalidAttribute(AttrKind::Background)),
                        },
                        _ => Ok(t2),
                    };
                    match r_bg {
                        Err(e) => Err(e),
                        Ok(t3) => {
                            let t4 = match attr_value(attrs, "family"@) {
                                Some(Some(v)) => TextV {
                                    font_id: FontIdV { family_name: v, ..t3.font_id },
                                    ..t3
                                },
                                _ => t3,
                            };
                            let t5 = match attr_value(attrs, "weight"@) {
                                Some(Some(v)) => TextV {
                                    font_id: FontIdV {
                                        weight: Weight::spec_from_str(v),
                                        ..t4.font_id
                                    },
                                    ..t4
                                },
                                _ => t4,
                            };
                            let t6 = match attr_value(attrs, "style"@) {
                                Some(Some(v)) => TextV {
                                    font_id: FontIdV {
                                        style: Style::spec_from_str(v),
                                        ..t5.font_id
                                    },
                                    ..t5
                                },
                                _ => t5,
                            };
                            Ok(t6)
                        },
                    }
                },
            }
        },
    }
}

/// Which attribute of a font element failed to parse.
#[derive(PartialEq, Eq, Structural, Debug, Copy, Clone)]
pub enum AttrKind {
    Size,
    Color,
    Background,
}

/// A fatal parse error: the document is not well-formed markup, or a
/// font attribute's value is not of the expected type.
#[derive(PartialEq, Eq, Structural, Debug, Copy, Clone)]
pub enum MarkupError {
    InvalidMarkup,
    InvalidAttribute(AttrKind),
}

impl MarkupError {
    /// A descriptive message naming the offending attribute and the
    /// expected type.
    pub fn message(&self) -> (r: String)
        ensures
            r@ == match self {
                MarkupError::InvalidMarkup => "Invalid input."@,
                MarkupError::InvalidAttribute(AttrKind::Size) => {
                    "Invalid size. decimal number expected."@
                },
                MarkupError::InvalidAttribute(AttrKind::Color) => {
                    "Invalid color. CSS color expected."@
                },
                MarkupError::InvalidAttribute(AttrKind::Background) => {
                    "Invalid background. CSS color expected."@
                },
            },
    {
        match self {
            MarkupError::InvalidMarkup => String::from_str("Invalid input."),
            MarkupError::InvalidAttribute(AttrKind::Size) => String::from_str(
                "Invalid size. decimal number expected.",
            ),
            MarkupError::InvalidAttribute(AttrKind::Color) => String::from_str(
                "Invalid color. CSS color expected.",
            ),
            MarkupError::InvalidAttribute(AttrKind::Background) => String::from_str(
                "Invalid background. CSS color expected.",
            ),
        }
    }
}

impl Text {
    /// A fresh run with the inherited defaults: empty content, size
    /// 120, black text on an opaque white background, the given default
    /// font key, no line yet, no explicit alignment.
    pub fn new(default_font: FontId) -> (r: Text)
        ensures
            r@ == TextV::initial(default_font@),
    {
        Text {
            content: String::new(),
            font_size: 120_000,
            font_color: Rgba { red: 0, green: 0, blue: 0, alpha: 255 },
            background_color: Rgba { red: 255, green: 255, blue: 255, alpha: 255 },
            font_id: default_font,
            metrics: None,
            line_index: 0,
            alignment: None,
        }
    }

    /// An exact copy, used to thread the inherited style down the tree
    /// without touching sibling subtrees.
    pub fn duplicate(&self) -> (r: Text)
        ensures
            r@ == self@,
    {
        Text {
            content: self.content.clone(),
            font_size: self.font_size,
            font_color: self.font_color,
            background_color: self.background_color,
            font_id: self.font_id.duplicate(),
            metrics: self.metrics,
            line_index: self.line_index,
            alignment: self.alignment,
        }
    }

    /// The alignment this run resolves to (explicit, or the default for
    /// its line index).
    pub fn alignment(&self) -> (r: Alignment)
        ensures
            r == self@.resolved_alignment(),
    {
        match self.alignment {
            Some(a) => a,
            None => if self.line_index == 1 {
                Alignment::Left
            } else {
                Alignment::Right
            },
        }
    }

    /// Sets the resolved face handle and measured size.  Must happen
    /// before the run takes part in measurement or drawing.
    pub fn initialize_font(&mut self, m: RunMetrics)
        ensures
            final(self)@ == (TextV { metrics: Some(m), ..old(self)@ }),
    {
        self.metrics = Some(m);
    }

    /// The resolved face handle.
    pub fn font(&self) -> (r: usize)
        requires
            self@.metrics is Some,
        ensures
            r == self@.metrics->Some_0.face,
    {
        self.metrics.unwrap().face
    }

    /// The measured width and height in device pixels.
    pub fn size(&self) -> (r: (u32, u32))
        requires
            self@.metrics is Some,
        ensures
            r.0 == self@.metrics->Some_0.width,
            r.1 == self@.metrics->Some_0.height,
    {
        let m = self.metrics.unwrap();
        (m.width, m.height)
    }

    /// The content this run is measured by: a single trailing space is
    /// substituted with a representative glyph before measuring, so the
    /// intentional gap keeps its width.
    pub fn measured_content(&self) -> (r: String)
        ensures
            r@ == self@.measured_content(),
    {
        let n = self.content.as_str().unicode_len();
        if n > 0 && self.content.as_str().get_char(n - 1) == ' ' {
            let head = self.content.as_str().substring_char(0, n - 1);
            let mut out = String::from_str(head);
            out.append("0");
            proof {
                reveal_strlit("0");
                assert(self.content@.subrange(0, n - 1 as int) =~= self.content@.drop_last());
                assert(out@ =~= self.content@.drop_last().push('0'));
            }
            out
        } else {
            let out = String::from_str(self.content.as_str());
            out
        }
    }

    /// Applies a font element's attributes to this run's style.  Only a
    /// `font` element may be handed in; the original treats any other
    /// name here as a programming error.
    pub fn parse_font(&mut self, element: &MarkupElement) -> (r: Result<(), MarkupError>)
        requires
            element.name@ == "font"@,
        ensures
            match apply_font_attrs(old(self)@, element.attrs@) {
                Ok(tv) => r == Ok::<(), MarkupError>(()) && final(self)@ == tv,
                Err(e) => r == Err::<(), MarkupError>(e),
            },
    {
        match get_attr(&element.attrs, "size") {
            Some(Some(v)) => {
                match parse_size(v.as_str()) {
                    Some(x) => {
                        self.font_size = x;
                    },
                    None => {
                        return Err(MarkupError::InvalidAttribute(AttrKind::Size));
                    },
                }
            },
            _ => {},
        }
        match get_attr(&element.attrs, "color") {
            Some(Some(v)) => {
                match parse_css_color(v.as_str()) {
                    Some(c) => {
                        self.font_color = c;
                    },
                    None => {
                        return Err(MarkupError::InvalidAttribute(AttrKind::Color));
                    },
                }
            },
            _ => {},
        }
        match get_attr(&element.attrs, "background") {
            Some(Some(v)) => {
                match parse_css_color(v.as_str()) {
                    Some(c) => {
                        self.background_color = c;
                    },
                    None => {
                        return Err(MarkupError::InvalidAttribute(AttrKind::Background));
                    },
                }
            },
            _ => {},
        }
        match get_attr(&element.attrs, "family") {
            Some(Some(v)) => {
                self.font_id.family_name = v;
            },
            _ => {},
        }
        match get_attr(&element.attrs, "weight") {
            Some(Some(v)) => {
                self.font_id.weight = Weight::from_str(v.as_str());
            },
            _ => {},
        }
        match get_attr(&element.attrs, "style") {
            Some(Some(v)) => {
                self.font_id.style = Style::from_str(v.as_str());
            },
            _ => {},
        }
        Ok(())
    }
}

} // verus!
