//! The application model: every colour and every palette of the database,
//! keyed by id, with each palette holding its colours in junction order.
use vstd::prelude::*;
use std::collections::HashMap;
use crate::color::{Color, ColorView, color_view_of};
use crate::palette::{Palette, PaletteView, with_color};

verus! {

broadcast use {vstd::std_specs::hash::group_hash_axioms, vstd::string::group_string_axioms};

/// A row of the colours table: id, red, green, blue, alpha text, hex name.
pub type ColorRow = (i64, i64, i64, i64, String, String);

/// A row of the palettes table: id, name.
pub type PaletteRow = (i64, String);

/// A row of the palette/colour junction table: id, palette id, colour id.
pub type JunctionRow = (i64, i64, i64);

pub struct Model {
    colors: Option<HashMap<i64, Color>>,
    palettes: Option<HashMap<i64, Palette>>,
}

/// What the model holds: each map is `None` until the model is first reset.
pub struct ModelView {
    pub colors: Option<Map<i64, ColorView>>,
    pub palettes: Option<Map<i64, PaletteView>>,
}

pub open spec fn color_map_view(m: Map<i64, Color>) -> Map<i64, ColorView> {
    m.map_values(|c: Color| c@)
}

pub open spec fn palette_map_view(m: Map<i64, Palette>) -> Map<i64, PaletteView> {
    m.map_values(|p: Palette| p@)
}

impl View for Model {
    type V = ModelView;

    closed spec fn view(&self) -> ModelView {
        ModelView {
            colors: match self.colors {
                Some(m) => Some(color_map_view(m@)),
                None => None,
            },
            palettes: match self.palettes {
                Some(m) => Some(palette_map_view(m@)),
                None => None,
            },
        }
    }
}

pub open spec fn color_of_row(row: ColorRow) -> ColorView {
    color_view_of(row.0, row.1, row.2, row.3, row.4@, row.5@)
}

/// The colours of the given rows, keyed by id (a later row wins over an
/// earlier one with the same id).
pub open spec fn colors_of_rows(rows: Seq<ColorRow>) -> Map<i64, ColorView>
    decreases rows.len(),
{
    if rows.len() == 0 {
        Map::empty()
    } else {
        colors_of_rows(rows.drop_last()).insert(rows.last().0, color_of_row(rows.last()))
    }
}

/// The (still empty) palettes of the given rows, keyed by id.
pub open spec fn palettes_of_rows(rows: Seq<PaletteRow>) -> Map<i64, PaletteView>
    decreases rows.len(),
{
    if rows.len() == 0 {
        Map::empty()
    } else {
        palettes_of_rows(rows.drop_last()).insert(
            rows.last().0,
            PaletteView { id: rows.last().0, name: rows.last().1@, colors: None },
        )
    }
}

/// The palettes after one junction row: its colour is appended to its palette
/// when both exist.
pub open spec fn join_row(
    pals: Map<i64, PaletteView>,
    colors: Map<i64, ColorView>,
    row: JunctionRow,
) -> Map<i64, PaletteView> {
    if pals.contains_key(row.1) && colors.contains_key(row.2) {
        pals.insert(
            row.1,
            PaletteView {
                id: pals[row.1].id,
                name: pals[row.1].name,
                colors: with_color(pals[row.1].colors, colors[row.2]),
            },
        )
    } else {
        pals
    }
}

/// The palettes after all junction rows, in order.
pub open spec fn join_rows(
    pals: Map<i64, PaletteView>,
    colors: Map<i64, ColorView>,
    rows: Seq<JunctionRow>,
) -> Map<i64, PaletteView>
    decreases rows.len(),
{
    if rows.len() == 0 {
        pals
    } else {
        join_row(join_rows(pals, colors, rows.drop_last()), colors, rows.last())
    }
}

impl Model {
    /// A model that has not been filled yet.
    pub fn new() -> (m: Model)
        ensures
            m@ == (ModelView { colors: None, palettes: None }),
    {
        Model { colors: None, palettes: None }
    }

    /// Empties both maps.
    pub fn reset_model(&mut self)
        ensures
            final(self)@ == (ModelView {
                colors: Some(Map::empty()),
                palettes: Some(Map::empty()),
            }),
    {
        self.colors = Some(HashMap::new());
        self.palettes = Some(HashMap::new());
        assert(color_map_view(Map::<i64, Color>::empty()) =~= Map::empty());
        assert(palette_map_view(Map::<i64, Palette>::empty()) =~= Map::empty());
    }

    /// Replaces the colours with those of the rows; an empty list of rows
    /// leaves the model as it is.
    pub fn populate_colors(&mut self, rows: &Vec<ColorRow>)
        ensures
            rows@.len() == 0 ==> final(self)@ == old(self)@,
            rows@.len() > 0 ==> final(self)@ == (ModelView {
                colors: Some(colors_of_rows(rows@)),
                palettes: old(self)@.palettes,
            }),
    {
        if rows.len() == 0 {
            return;
        }
        let mut map: HashMap<i64, Color> = HashMap::new();
        assert(color_map_view(map@) =~= colors_of_rows(rows@.take(0)));
        let mut i: usize = 0;
        while i < rows.len()
            invariant
                i <= rows@.len(),
                color_map_view(map@) == colors_of_rows(rows@.take(i as int)),
            decreases rows@.len() - i,
        {
            let row = &rows[i];
            let c = Color::new(row.0, row.1, row.2, row.3, row.4.clone(), row.5.clone());
            let ghost before = map@;
            map.insert(row.0, c);
            proof {
                assert(rows@.take(i + 1).drop_last() =~= rows@.take(i as int));
                assert(rows@.take(i + 1).last() == rows@[i as int]);
                assert(color_map_view(map@) =~= color_map_view(before).insert(row.0, c@));
            }
            i = i + 1;
        }
        assert(rows@.take(rows@.len() as int) =~= rows@);
        self.colors = Some(map);
    }

    /// Replaces the palettes with empty palettes for the rows; an empty list
    /// of rows leaves the model as it is.
    pub fn populate_palettes(&mut self, rows: &Vec<PaletteRow>)
        ensures
            rows@.len() == 0 ==> final(self)@ == old(self)@,
            rows@.len() > 0 ==> final(self)@ == (ModelView {
                colors: old(self)@.colors,
                palettes: Some(palettes_of_rows(rows@)),
            }),
    {
        if rows.len() == 0 {
            return;
        }
        let mut map: HashMap<i64, Palette> = HashMap::new();
        assert(palette_map_view(map@) =~= palettes_of_rows(rows@.take(0)));
        let mut i: usize = 0;
        while i < rows.len()
            invariant
                i <= rows@.len(),
                palette_map_view(map@) == palettes_of_rows(rows@.take(i as int)),
            decreases rows@.len() - i,
        {
            let row = &rows[i];
            let p = Palette::new(row.0, row.1.clone());
            let ghost before = map@;
            map.insert(row.0, p);
            proof {
                assert(rows@.take(i + 1).drop_last() =~= rows@.take(i as int));
                assert(rows@.take(i + 1).last() == rows@[i as int]);
                assert(palette_map_view(map@) =~= palette_map_view(before).insert(row.0, p@));
            }
            i = i + 1;
        }
        assert(rows@.take(rows@.len() as int) =~= rows@);
        self.palettes = Some(map);
    }

    /// Adds to each palette the colours that the junction rows give it, in
    /// order; rows naming a missing palette or colour are passed over.
    pub fn populate_color_palette_join(&mut self, rows: &Vec<JunctionRow>)
        ensures
            final(self)@.colors == old(self)@.colors,
            final(self)@.palettes == match (old(self)@.palettes, old(self)@.colors) {
                (Some(p), Some(c)) => Some(join_rows(p, c, rows@)),
                _ => old(self)@.palettes,
            },
    {
        if rows.len() == 0 {
            proof {
                match (self@.palettes, self@.colors) {
                    (Some(p), Some(c)) => {
                        assert(join_rows(p, c, rows@) == p);
                    },
                    _ => {},
                }
            }
            return;
        }
        if self.colors.is_none() || self.palettes.is_none() {
            return;
        }
        let colors = self.colors.as_ref().unwrap();
        let mut pals = self.palettes.take().unwrap();
        let ghost pals0 = palette_map_view(pals@);
        let ghost cview = color_map_view(colors@);
        assert(rows@.take(0) =~= Seq::<JunctionRow>::empty());
        let mut i: usize = 0;
        while i < rows.len()
            invariant
                i <= rows@.len(),
                cview == color_map_view(colors@),
                palette_map_view(pals@) == join_rows(pals0, cview, rows@.take(i as int)),
            decreases rows@.len() - i,
        {
            let pid: i64 = rows[i].1;
            let cid: i64 = rows[i].2;
            let ghost before = pals@;
            proof {
                assert(rows@.take(i + 1).drop_last() =~= rows@.take(i as int));
                assert(rows@.take(i + 1).last() == rows@[i as int]);
            }
            if pals.contains_key(&pid) && colors.contains_key(&cid) {
                let c = colors.get(&cid).unwrap().clone();
                let mut p = pals.remove(&pid).unwrap();
                p.add_color(c);
                pals.insert(pid, p);
                proof {
                    assert(palette_map_view(pals@) =~= join_row(
                        palette_map_view(before),
                        cview,
                        rows@[i as int],
                    ));
                }
            } else {
                proof {
                    assert(join_row(palette_map_view(before), cview, rows@[i as int])
                        == palette_map_view(before));
                }
            }
            i = i + 1;
        }
        assert(rows@.take(rows@.len() as int) =~= rows@);
        self.palettes = Some(pals);
    }

    /// Fills the model from the database's rows: resets it, then loads the
    /// colours, the palettes and the junctions between them.
    pub fn populate_all(
        &mut self,
        color_rows: &Vec<ColorRow>,
        palette_rows: &Vec<PaletteRow>,
        junction_rows: &Vec<JunctionRow>,
    )
        ensures
            final(self)@ == (ModelView {
                colors: Some(colors_of_rows(color_rows@)),
                palettes: Some(
                    join_rows(
                        palettes_of_rows(palette_rows@),
                        colors_of_rows(color_rows@),
                        junction_rows@,
                    ),
                ),
            }),
    {
        self.reset_model();
        self.populate_colors(color_rows);
        self.populate_palettes(palette_rows);
        self.populate_color_palette_join(junction_rows);
    }

    /// A copy of all colours, keyed by id.
    pub fn colors(&self) -> (m: HashMap<i64, Color>)
        requires
            self@.colors is Some,
        ensures
            Some(color_map_view(m@)) == self@.colors,
    {
        self.colors.as_ref().unwrap().clone()
    }

    /// A copy of all palettes, keyed by id.
    pub fn palettes(&self) -> (m: HashMap<i64, Palette>)
        requires
            self@.palettes is Some,
        ensures
            Some(palette_map_view(m@)) == self@.palettes,
    {
        self.palettes.as_ref().unwrap().clone()
    }

    /// The colour with the given id.
    pub fn color(&self, id: i64) -> (r: Result<Color, String>)
        ensures
            match self@.colors {
                None => r matches Err(e) && e@ == "hashmap does not exist"@,
                Some(m) => if m.contains_key(id) {
                    r matches Ok(c) && c@ == m[id]
                } else {
                    r matches Err(e) && e@ == "id not in map"@
                },
            },
    {
        match self.colors.as_ref() {
            Some(map) => match map.get(&id) {
                Some(color) => Ok(color.clone()),
                None => Err("id not in map".to_string()),
            },
            None => Err("hashmap does not exist".to_string()),
        }
    }

    /// The palette with the given id.
    pub fn palette(&self, id: i64) -> (r: Result<Palette, String>)
        ensures
            match self@.palettes {
                None => r matches Err(e) && e@ == "hashmap does not exist"@,
                Some(m) => if m.contains_key(id) {
                    r matches Ok(p) && p@ == m[id]
                } else {
                    r matches Err(e) && e@ == "id not in map"@
                },
            },
    {
        match self.palettes.as_ref() {
            Some(map) => match map.get(&id) {
                Some(palette) => Ok(palette.clone()),
                None => Err("id not in map".to_string()),
            },
            None => Err("hashmap does not exist".to_string()),
        }
    }
}


/// The colours that the junction rows give a palette: in row order, the
/// colour of each row that names the palette and an existing colour.
pub open spec fn junction_colors(
    pid: i64,
    colors: Map<i64, ColorView>,
    rows: Seq<JunctionRow>,
) -> Seq<ColorView>
    decreases rows.len(),
{
    if rows.len() == 0 {
        Seq::empty()
    } else {
        let prev = junction_colors(pid, colors, rows.drop_last());
        if rows.last().1 == pid && colors.contains_key(rows.last().2) {
            prev.push(colors[rows.last().2])
        } else {
            prev
        }
    }
}

/// A palette's colours followed by `s` (still `None` when both are empty).
pub open spec fn append_colors(c: Option<Seq<ColorView>>, s: Seq<ColorView>) -> Option<
    Seq<ColorView>,
> {
    if s.len() == 0 {
        c
    } else {
        match c {
            Some(x) => Some(x + s),
            None => Some(s),
        }
    }
}

/// Joining keeps the palettes, their ids and names, and appends to each the
/// colours its junction rows give it.
pub proof fn lemma_join_rows(
    pals: Map<i64, PaletteView>,
    colors: Map<i64, ColorView>,
    rows: Seq<JunctionRow>,
    pid: i64,
)
    ensures
        join_rows(pals, colors, rows).dom() == pals.dom(),
        pals.contains_key(pid) ==> join_rows(pals, colors, rows)[pid] == (PaletteView {
            id: pals[pid].id,
            name: pals[pid].name,
            colors: append_colors(pals[pid].colors, junction_colors(pid, colors, rows)),
        }),
    decreases rows.len(),
{
    if rows.len() > 0 {
        let prefix = rows.drop_last();
        let r = rows.last();
        lemma_join_rows(pals, colors, prefix, pid);
        lemma_join_rows(pals, colors, prefix, r.1);
        let j = join_rows(pals, colors, prefix);
        assert(join_rows(pals, colors, rows) == join_row(j, colors, r));
        if j.contains_key(r.1) && colors.contains_key(r.2) {
            assert(join_row(j, colors, r).dom() =~= j.dom());
            if r.1 == pid {
                let s = junction_colors(pid, colors, prefix);
                assert(junction_colors(pid, colors, rows) == s.push(colors[r.2]));
                match pals[pid].colors {
                    Some(x) => {
                        if s.len() > 0 {
                            assert(x + s.push(colors[r.2]) =~= (x + s).push(colors[r.2]));
                        }
                    },
                    None => {
                        if s.len() == 0 {
                            assert(s.push(colors[r.2]) =~= seq![colors[r.2]]);
                        }
                    },
                }
            }
        }
    }
}

/// Every colour made from the rows sits under its own id.
pub proof fn lemma_colors_keyed_by_id(rows: Seq<ColorRow>, k: i64)
    ensures
        colors_of_rows(rows).contains_key(k) ==> colors_of_rows(rows)[k].id == k,
    decreases rows.len(),
{
    if rows.len() > 0 {
        lemma_colors_keyed_by_id(rows.drop_last(), k);
    }
}

/// Every palette made from the rows starts without colours.
pub proof fn lemma_palettes_start_empty(rows: Seq<PaletteRow>, k: i64)
    ensures
        palettes_of_rows(rows).contains_key(k) ==> palettes_of_rows(rows)[k].colors is None,
        palettes_of_rows(rows).contains_key(k) ==> palettes_of_rows(rows)[k].id == k,
    decreases rows.len(),
{
    if rows.len() > 0 {
        lemma_palettes_start_empty(rows.drop_last(), k);
    }
}

/// The colours a palette receives all come from `colors`, each under its key.
pub proof fn lemma_junction_colors_from(
    pid: i64,
    colors: Map<i64, ColorView>,
    rows: Seq<JunctionRow>,
    i: int,
)
    requires
        0 <= i < junction_colors(pid, colors, rows).len(),
    ensures
        exists|k: i64|
            colors.contains_key(k) && colors[k] == #[trigger] junction_colors(pid, colors, rows)[i],
    decreases rows.len(),
{
    if rows.len() > 0 {
        let prev = junction_colors(pid, colors, rows.drop_last());
        if i < prev.len() {
            lemma_junction_colors_from(pid, colors, rows.drop_last(), i);
            let k = choose|k: i64| colors.contains_key(k) && colors[k] == #[trigger] prev[i];
            assert(colors.contains_key(k) && colors[k] == junction_colors(pid, colors, rows)[i]);
        } else {
            let k: i64 = rows.last().2;
            assert(colors.contains_key(k) && colors[k] == junction_colors(pid, colors, rows)[i]);
        }
    }
}

/// After the model is filled, a palette exists exactly when a palette row
/// names it, and its colours are, in junction order, the colours of the
/// junction rows that name it and an existing colour (`None` when there are
/// none).
pub proof fn populated_palette_colors(
    color_rows: Seq<ColorRow>,
    palette_rows: Seq<PaletteRow>,
    junction_rows: Seq<JunctionRow>,
    pid: i64,
)
    ensures
        ({
            let colors = colors_of_rows(color_rows);
            let pals = join_rows(palettes_of_rows(palette_rows), colors, junction_rows);
            let s = junction_colors(pid, colors, junction_rows);
            &&& pals.dom() == palettes_of_rows(palette_rows).dom()
            &&& pals.contains_key(pid) ==> pals[pid].id == pid
            &&& pals.contains_key(pid) ==> pals[pid].colors == if s.len() == 0 {
                None
            } else {
                Some(s)
            }
        }),
{
    let colors = colors_of_rows(color_rows);
    lemma_join_rows(palettes_of_rows(palette_rows), colors, junction_rows, pid);
    lemma_palettes_start_empty(palette_rows, pid);
}

/// After the model is filled, every colour held by a palette is a colour of
/// the model, stored under that colour's id.
pub proof fn populated_palettes_hold_model_colors(
    color_rows: Seq<ColorRow>,
    palette_rows: Seq<PaletteRow>,
    junction_rows: Seq<JunctionRow>,
    pid: i64,
    i: int,
)
    ensures
        ({
            let colors = colors_of_rows(color_rows);
            let pals = join_rows(palettes_of_rows(palette_rows), colors, junction_rows);
            pals.contains_key(pid) && pals[pid].colors is Some && 0 <= i
                < pals[pid].colors.unwrap().len() ==> {
                let c = pals[pid].colors.unwrap()[i];
                colors.contains_key(c.id) && colors[c.id] == c
            }
        }),
{
    let colors = colors_of_rows(color_rows);
    let pals = join_rows(palettes_of_rows(palette_rows), colors, junction_rows);
    populated_palette_colors(color_rows, palette_rows, junction_rows, pid);
    if pals.contains_key(pid) && pals[pid].colors is Some && 0 <= i
        < pals[pid].colors.unwrap().len() {
        let s = junction_colors(pid, colors, junction_rows);
        lemma_junction_colors_from(pid, colors, junction_rows, i);
        let k = choose|k: i64| colors.contains_key(k) && colors[k] == #[trigger] s[i];
        lemma_colors_keyed_by_id(color_rows, k);
    }
}


/// With distinct ids, as the colours table's primary key makes them, each
/// colour row is in the filled model under its id, with its values.
pub proof fn populated_colors_match_rows(rows: Seq<ColorRow>, i: int)
    requires
        0 <= i < rows.len(),
        forall|a: int, b: int| 0 <= a < b < rows.len() ==> rows[a].0 != rows[b].0,
    ensures
        colors_of_rows(rows).contains_key(rows[i].0),
        colors_of_rows(rows)[rows[i].0] == color_of_row(rows[i]),
    decreases rows.len(),
{
    if i < rows.len() - 1 {
        let prefix = rows.drop_last();
        assert(prefix[i] == rows[i]);
        assert forall|a: int, b: int| 0 <= a < b < prefix.len() implies prefix[a].0 != prefix[b].0 by {
            assert(prefix[a] == rows[a] && prefix[b] == rows[b]);
        }
        populated_colors_match_rows(prefix, i);
        assert(rows[i].0 != rows[rows.len() - 1].0);
    }
}

/// The filled model holds no colour that no row names.
pub proof fn populated_colors_come_from_rows(rows: Seq<ColorRow>, k: i64)
    ensures
        colors_of_rows(rows).contains_key(k) ==> exists|i: int| 0 <= i < rows.len() && #[trigger] rows[i].0 == k,
    decreases rows.len(),
{
    if rows.len() > 0 {
        let prefix = rows.drop_last();
        populated_colors_come_from_rows(prefix, k);
        if colors_of_rows(prefix).contains_key(k) {
            let i = choose|i: int| 0 <= i < prefix.len() && #[trigger] prefix[i].0 == k;
            assert(rows[i] == prefix[i]);
        } else if colors_of_rows(rows).contains_key(k) {
            assert(rows[rows.len() - 1].0 == k);
        }
    }
}

/// With distinct ids, each palette row is in the filled model under its id,
/// with its name.
pub proof fn populated_palettes_match_rows(rows: Seq<PaletteRow>, i: int)
    requires
        0 <= i < rows.len(),
        forall|a: int, b: int| 0 <= a < b < rows.len() ==> rows[a].0 != rows[b].0,
    ensures
        palettes_of_rows(rows).contains_key(rows[i].0),
        palettes_of_rows(rows)[rows[i].0].name == rows[i].1@,
    decreases rows.len(),
{
    if i < rows.len() - 1 {
        let prefix = rows.drop_last();
        assert(prefix[i] == rows[i]);
        assert forall|a: int, b: int| 0 <= a < b < prefix.len() implies prefix[a].0 != prefix[b].0 by {
            assert(prefix[a] == rows[a] && prefix[b] == rows[b]);
        }
        populated_palettes_match_rows(prefix, i);
        assert(rows[i].0 != rows[rows.len() - 1].0);
    }
}

/// With distinct ids, each colour row's values are those of the model's
/// colour under its id: the channels, alpha and hex name as the row gives
/// them, and the rgb name written from the same channels.
pub proof fn populated_colors_keep_values(rows: Seq<ColorRow>, i: int)
    requires
        0 <= i < rows.len(),
        forall|a: int, b: int| 0 <= a < b < rows.len() ==> rows[a].0 != rows[b].0,
    ensures
        colors_of_rows(rows).contains_key(rows[i].0),
        colors_of_rows(rows)[rows[i].0].id == rows[i].0,
        colors_of_rows(rows)[rows[i].0].red == rows[i].1,
        colors_of_rows(rows)[rows[i].0].green == rows[i].2,
        colors_of_rows(rows)[rows[i].0].blue == rows[i].3,
        colors_of_rows(rows)[rows[i].0].alpha == rows[i].4@,
        colors_of_rows(rows)[rows[i].0].hex_name == rows[i].5@,
        colors_of_rows(rows)[rows[i].0].rgb_name == crate::util::rgb_name_of(
            rows[i].1 as int,
            rows[i].2 as int,
            rows[i].3 as int,
        ),
{
    populated_colors_match_rows(rows, i);
}
} // verus!
