//! A named palette and the colours it holds, in the order they were added.
use vstd::prelude::*;
use crate::color::{Color, ColorView};

verus! {

#[derive(Debug)]
pub struct Palette {
    id: i64,
    name: String,
    colors: Option<Vec<Color>>,
}

/// What a palette holds: `colors` is `None` until a first colour is added.
pub struct PaletteView {
    pub id: i64,
    pub name: Seq<char>,
    pub colors: Option<Seq<ColorView>>,
}

/// The views of a sequence of colours.
pub open spec fn color_views(s: Seq<Color>) -> Seq<ColorView> {
    s.map_values(|c: Color| c@)
}

/// The colours of a palette after `c` is added to it.
pub open spec fn with_color(colors: Option<Seq<ColorView>>, c: ColorView) -> Option<Seq<ColorView>> {
    match colors {
        Some(s) => Some(s.push(c)),
        None => Some(seq![c]),
    }
}

/// The number of colours, as `len` reports it (a `u32`, truncated as `as u32` does).
pub open spec fn color_count(colors: Option<Seq<ColorView>>) -> u32 {
    match colors {
        Some(s) => s.len() as u32,
        None => 0,
    }
}

impl View for Palette {
    type V = PaletteView;

    closed spec fn view(&self) -> PaletteView {
        PaletteView {
            id: self.id,
            name: self.name@,
            colors: match self.colors {
                Some(v) => Some(color_views(v@)),
                None => None,
            },
        }
    }
}

impl Clone for Palette {
    fn clone(&self) -> (p: Self)
        ensures
            p@ == self@,
    {
        Palette { id: self.id, name: self.name.clone(), colors: self.colors() }
    }
}

impl Palette {
    /// An empty palette.
    pub fn new(id: i64, name: String) -> (p: Palette)
        ensures
            p@ == (PaletteView { id, name: name@, colors: None }),
    {
        Palette { id, name, colors: None }
    }

    pub fn id(&self) -> (id: i64)
        ensures
            id == self@.id,
    {
        self.id
    }

    pub fn name(&self) -> (s: String)
        ensures
            s@ == self@.name,
    {
        self.name.clone()
    }

    /// Appends a colour to the palette.
    pub fn add_color(&mut self, color: Color)
        ensures
            final(self)@ == (PaletteView {
                id: old(self)@.id,
                name: old(self)@.name,
                colors: with_color(old(self)@.colors, color@),
            }),
    {
        match self.colors.take() {
            None => {
                let mut v: Vec<Color> = Vec::new();
                v.push(color);
                assert(color_views(v@) =~= seq![color@]);
                self.colors = Some(v);
            },
            Some(mut v) => {
                let ghost before = v@;
                v.push(color);
                assert(color_views(v@) =~= color_views(before).push(color@));
                self.colors = Some(v);
            },
        }
    }

    /// A copy of the palette's colours, `None` when none was ever added.
    pub fn colors(&self) -> (r: Option<Vec<Color>>)
        ensures
            match r {
                Some(v) => self@.colors == Some(color_views(v@)),
                None => self@.colors is None,
            },
    {
        match &self.colors {
            Some(v) => {
                let mut out: Vec<Color> = Vec::new();
                let mut i: usize = 0;
                while i < v.len()
                    invariant
                        i <= v.len(),
                        out@.len() == i,
                        forall|j: int| 0 <= j < i ==> out@[j] == v@[j],
                    decreases v.len() - i,
                {
                    out.push(v[i].clone());
                    i = i + 1;
                }
                assert(out@ =~= v@);
                Some(out)
            },
            None => None,
        }
    }

    /// The number of colours in the palette.
    pub fn len(&self) -> (n: u32)
        ensures
            n == color_count(self@.colors),
    {
        match &self.colors {
            Some(v) => v.len() as u32,
            None => 0,
        }
    }
}

} // verus!
