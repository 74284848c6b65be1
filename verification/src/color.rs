use vstd::prelude::*;

verus! {

/// One color with straight (non-premultiplied) alpha, eight bits per channel.
#[derive(Clone, Copy, PartialEq, Eq, Structural, Debug)]
pub struct Rgba {
    pub red: u8,
    pub green: u8,
    pub blue: u8,
    pub alpha: u8,
}

impl Rgba {
    /// A fully transparent run background is skipped when drawing.
    pub open spec fn is_transparent(self) -> bool {
        self.alpha == 0
    }

    pub open spec fn black() -> Rgba {
        Rgba { red: 0, green: 0, blue: 0, alpha: 255 }
    }

    pub open spec fn white() -> Rgba {
        Rgba { red: 255, green: 255, blue: 255, alpha: 255 }
    }
}

/// What csscolorparser::parse returns on a given string: the color's four
/// channels, or None where the string is not CSS color syntax.  The result
/// depends on the string alone.
pub uninterp spec fn css_color_of(s: Seq<char>) -> Option<Rgba>;

/// Relies on csscolorparser::parse for CSS color syntax and on
/// csscolorparser::Color::to_rgba8 for the four-channel form.
#[verifier::external_body]
pub fn parse_css_color(s: &str) -> (r: Option<Rgba>)
    ensures
        r == css_color_of(s@),
{
    match csscolorparser::parse(s) {
        Ok(c) => {
            let [red, green, blue, alpha] = c.to_rgba8();
            Some(Rgba { red, green, blue, alpha })
        },
        Err(_) => None,
    }
}

} // verus!
