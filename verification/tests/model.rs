use paleta::model::{ColorRow, JunctionRow, Model, PaletteRow};

fn color_rows() -> Vec<ColorRow> {
    vec![
        (1, 255, 0, 0, "1".to_string(), "#FF0000".to_string()),
        (2, 0, 255, 0, "1".to_string(), "#00FF00".to_string()),
        (3, 0, 0, 255, "0.5".to_string(), "#0000FF".to_string()),
    ]
}

fn palette_rows() -> Vec<PaletteRow> {
    vec![(10, "Warm".to_string()), (11, "Cold".to_string()), (12, "Empty".to_string())]
}

fn junction_rows() -> Vec<JunctionRow> {
    vec![
        (100, 10, 2),
        (101, 11, 3),
        (102, 10, 1),
        (103, 10, 99), // no such colour
        (104, 77, 1),  // no such palette
        (105, 11, 2),
    ]
}

fn filled() -> Model {
    let mut m = Model::new();
    m.populate_all(&color_rows(), &palette_rows(), &junction_rows());
    m
}

#[test]
fn new_model_has_no_maps() {
    let m = Model::new();
    assert_eq!(m.color(1).unwrap_err(), "hashmap does not exist");
    assert_eq!(m.palette(1).unwrap_err(), "hashmap does not exist");
}

#[test]
fn populate_loads_every_color() {
    let m = filled();
    let colors = m.colors();
    assert_eq!(colors.len(), 3);
    let c = m.color(3).unwrap();
    assert_eq!(c.rgb(), (0, 0, 255));
    assert_eq!(c.rgba().3, "0.5");
    assert_eq!(c.hex_name(), "#0000FF");
    assert_eq!(c.rgb_name(), "rgb(0,0,255)");
    assert_eq!(m.color(4).unwrap_err(), "id not in map");
}

#[test]
fn populate_loads_every_palette() {
    let m = filled();
    let palettes = m.palettes();
    assert_eq!(palettes.len(), 3);
    assert_eq!(m.palette(11).unwrap().name(), "Cold");
    assert_eq!(m.palette(77).unwrap_err(), "id not in map");
}

#[test]
fn palettes_hold_colors_in_junction_order() {
    let m = filled();
    let warm: Vec<i64> = m.palette(10).unwrap().colors().unwrap().iter().map(|c| c.id()).collect();
    assert_eq!(warm, vec![2, 1]);
    let cold: Vec<i64> = m.palette(11).unwrap().colors().unwrap().iter().map(|c| c.id()).collect();
    assert_eq!(cold, vec![3, 2]);
    assert_eq!(m.palette(10).unwrap().len(), 2);
}

#[test]
fn palette_without_junctions_has_no_colors() {
    let m = filled();
    let empty = m.palette(12).unwrap();
    assert!(empty.colors().is_none());
    assert_eq!(empty.len(), 0);
}

#[test]
fn palette_colors_are_model_colors() {
    let m = filled();
    for (_, p) in m.palettes() {
        if let Some(colors) = p.colors() {
            for c in colors {
                let mc = m.color(c.id()).unwrap();
                assert_eq!(mc.rgb_name(), c.rgb_name());
                assert_eq!(mc.hex_name(), c.hex_name());
            }
        }
    }
}

#[test]
fn populate_replaces_earlier_contents() {
    let mut m = filled();
    m.populate_all(&vec![], &vec![(5, "Only".to_string())], &vec![(1, 5, 1)]);
    assert_eq!(m.colors().len(), 0);
    assert_eq!(m.palettes().len(), 1);
    assert!(m.palette(5).unwrap().colors().is_none());
    assert_eq!(m.palette(10).unwrap_err(), "id not in map");
}

#[test]
fn empty_rows_leave_maps_unchanged() {
    let mut m = filled();
    m.populate_colors(&vec![]);
    m.populate_palettes(&vec![]);
    m.populate_color_palette_join(&vec![]);
    assert_eq!(m.colors().len(), 3);
    assert_eq!(m.palettes().len(), 3);
}

#[test]
fn reset_empties_both_maps() {
    let mut m = filled();
    m.reset_model();
    assert_eq!(m.colors().len(), 0);
    assert_eq!(m.palettes().len(), 0);
    assert_eq!(m.color(1).unwrap_err(), "id not in map");
}
