//! A colour stored in the palette database.
//!
//! The alpha channel is kept as the decimal text that the database shows for
//! it (the text `{}` writes for the stored real number): the library passes it
//! through and never computes with it.
use vstd::prelude::*;
use crate::util::{rgb_name, rgb_name_of};

verus! {

#[derive(Debug)]
pub struct Color {
    id: i64,
    red: i64,
    green: i64,
    blue: i64,
    alpha: String,
    hex_name: String,
    rgb_name: String,
}

/// What a colour holds, with its texts as character sequences.
pub struct ColorView {
    pub id: i64,
    pub red: i64,
    pub green: i64,
    pub blue: i64,
    pub alpha: Seq<char>,
    pub hex_name: Seq<char>,
    pub rgb_name: Seq<char>,
}

impl View for Color {
    type V = ColorView;

    closed spec fn view(&self) -> ColorView {
        ColorView {
            id: self.id,
            red: self.red,
            green: self.green,
            blue: self.blue,
            alpha: self.alpha@,
            hex_name: self.hex_name@,
            rgb_name: self.rgb_name@,
        }
    }
}

/// The colour that `Color::new` makes from its arguments.
pub open spec fn color_view_of(
    id: i64,
    r: i64,
    g: i64,
    b: i64,
    a: Seq<char>,
    hex: Seq<char>,
) -> ColorView {
    ColorView {
        id,
        red: r,
        green: g,
        blue: b,
        alpha: a,
        hex_name: hex,
        rgb_name: rgb_name_of(r as int, g as int, b as int),
    }
}

impl Clone for Color {
    fn clone(&self) -> (c: Self)
        ensures
            c == *self,
    {
        Color {
            id: self.id,
            red: self.red,
            green: self.green,
            blue: self.blue,
            alpha: self.alpha.clone(),
            hex_name: self.hex_name.clone(),
            rgb_name: self.rgb_name.clone(),
        }
    }
}

impl Color {
    /// A colour with the given id, channels, alpha text and hex name; its rgb
    /// name is derived from the channels.
    pub fn new(id: i64, r: i64, g: i64, b: i64, a: String, hex: String) -> (c: Color)
        ensures
            c@ == color_view_of(id, r, g, b, a@, hex@),
    {
        let rgb = rgb_name(r, g, b);
        Color { id, red: r, green: g, blue: b, alpha: a, hex_name: hex, rgb_name: rgb }
    }

    pub fn id(&self) -> (id: i64)
        ensures
            id == self@.id,
    {
        self.id
    }

    pub fn rgb(&self) -> (t: (i64, i64, i64))
        ensures
            t == (self@.red, self@.green, self@.blue),
    {
        (self.red, self.green, self.blue)
    }

    /// The channels and the alpha text.
    pub fn rgba(&self) -> (t: (i64, i64, i64, String))
        ensures
            t.0 == self@.red,
            t.1 == self@.green,
            t.2 == self@.blue,
            t.3@ == self@.alpha,
    {
        (self.red, self.green, self.blue, self.alpha.clone())
    }

    pub fn hex_name(&self) -> (s: String)
        ensures
            s@ == self@.hex_name,
    {
        self.hex_name.clone()
    }

    pub fn rgb_name(&self) -> (s: String)
        ensures
            s@ == self@.rgb_name,
    {
        self.rgb_name.clone()
    }
}

} // verus!
