//! A colour taken from an image, before it is saved into a palette.
use vstd::prelude::*;
use crate::util::{rgb_to_hex, rgb_name, hex_name_of, rgb_name_of};

verus! {

#[derive(Debug)]
pub struct ExtractedColor {
    rgb: (u8, u8, u8),
    hex_name: String,
    rgb_name: String,
}

pub struct ExtractedColorView {
    pub rgb: (u8, u8, u8),
    pub hex_name: Seq<char>,
    pub rgb_name: Seq<char>,
}

impl View for ExtractedColor {
    type V = ExtractedColorView;

    closed spec fn view(&self) -> ExtractedColorView {
        ExtractedColorView { rgb: self.rgb, hex_name: self.hex_name@, rgb_name: self.rgb_name@ }
    }
}

impl Clone for ExtractedColor {
    fn clone(&self) -> (c: Self)
        ensures
            c == *self,
    {
        ExtractedColor {
            rgb: self.rgb,
            hex_name: self.hex_name.clone(),
            rgb_name: self.rgb_name.clone(),
        }
    }
}

/// The alpha text of every extracted colour: they are opaque, and the
/// database shows an alpha of one as `1`.
pub open spec fn opaque_alpha() -> Seq<char> {
    seq!['1']
}

impl ExtractedColor {
    pub fn new(rgb: (u8, u8, u8)) -> (c: ExtractedColor)
        ensures
            c@.rgb == rgb,
            c@.hex_name == hex_name_of(rgb.0, rgb.1, rgb.2),
            c@.rgb_name == rgb_name_of(rgb.0 as int, rgb.1 as int, rgb.2 as int),
    {
        let hex = rgb_to_hex(rgb.0, rgb.1, rgb.2);
        let name = rgb_name(rgb.0 as i64, rgb.1 as i64, rgb.2 as i64);
        ExtractedColor { rgb, hex_name: hex, rgb_name: name }
    }

    pub fn rgb_tuple(&self) -> (t: (u8, u8, u8))
        ensures
            t == self@.rgb,
    {
        self.rgb
    }

    pub fn hex_name(&self) -> (s: String)
        ensures
            s@ == self@.hex_name,
    {
        self.hex_name.clone()
    }

    pub fn rgb_name(&self) -> (s: String)
        ensures
            s@ == self@.rgb_name,
    {
        self.rgb_name.clone()
    }

    /// The alpha text this colour is saved with.
    pub fn alpha_text(&self) -> (s: String)
        ensures
            s@ == opaque_alpha(),
    {
        let mut out: Vec<char> = Vec::new();
        out.push('1');
        assert(out@ =~= opaque_alpha());
        crate::text::string_from_chars(&out)
    }
}

} // verus!
