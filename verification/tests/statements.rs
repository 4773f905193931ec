use paleta::sql;
use paleta::sql::Table;

#[test]
fn find_color_statement() {
    assert_eq!(
        sql::find_color(255, 0, -3, "0.5", "#FF0000"),
        "SELECT id FROM Colors WHERE red=255 AND green=0 AND blue=-3 AND alpha=0.5 AND hex=\"#FF0000\";"
    );
}

#[test]
fn junction_statements() {
    assert_eq!(
        sql::find_junction(4, 9),
        "SELECT id FROM Palette_Color_Junction WHERE palette_id=4 AND color_id=9;"
    );
    assert_eq!(
        sql::remove_color(9, 4),
        "DELETE FROM Palette_Color_Junction WHERE color_id = 9 AND palette_id = 4;"
    );
    assert_eq!(sql::unlink_palette(4), "DELETE FROM Palette_Color_Junction WHERE palette_id = 4;");
}

#[test]
fn palette_statements() {
    assert_eq!(sql::rename_palette("Sea", 12), "UPDATE Palettes SET name = \"Sea\" WHERE id = 12;");
    assert_eq!(sql::delete_palette(12), "DELETE FROM Palettes WHERE id = 12;");
    assert_eq!(sql::insert_palette(), "INSERT INTO Palettes (name) VALUES ( ? );");
}

#[test]
fn insert_statements() {
    assert_eq!(
        sql::insert_color(),
        "INSERT INTO Colors (red, green, blue, alpha, hex) VALUES  ( ?, ?, ?, ?, ? );"
    );
    assert_eq!(
        sql::insert_junction(),
        "INSERT INTO Palette_Color_Junction (palette_id, color_id) VALUES  ( ?, ? );"
    );
}

#[test]
fn pruning_statements() {
    assert_eq!(sql::list_ids(Table::Colors), "SELECT id FROM Colors;");
    assert_eq!(sql::list_ids(Table::Palettes), "SELECT id FROM Palettes;");
    assert_eq!(
        sql::junctions_of(Table::Colors, 3),
        "SELECT id FROM Palette_Color_Junction WHERE color_id = 3;"
    );
    assert_eq!(
        sql::junctions_of(Table::Palettes, 3),
        "SELECT id FROM Palette_Color_Junction WHERE palette_id = 3;"
    );
    assert_eq!(sql::delete_row(Table::Colors, 3), "DELETE FROM Colors WHERE id = 3;");
    assert_eq!(sql::delete_row(Table::Palettes, -2), "DELETE FROM Palettes WHERE id = -2;");
}

#[test]
fn reading_statements() {
    assert_eq!(sql::select_all_colors(), "SELECT * FROM Colors;");
    assert_eq!(sql::select_all_palettes(), "SELECT * FROM Palettes;");
    assert_eq!(sql::select_all_junctions(), "SELECT * FROM Palette_Color_Junction;");
    assert_eq!(sql::count_palettes(), "SELECT count( * ) FROM Palettes;");
    assert_eq!(
        sql::select_colors_of_palette(),
        "SELECT color_id FROM Palette_Color_Junction WHERE palette_id = ?;"
    );
}

#[test]
fn schema_has_three_tables() {
    let s = sql::schema_statements();
    assert_eq!(s.len(), 4);
    assert_eq!(s[0], "PRAGMA foreign_keys = ON");
    assert!(s[1].contains("Colors") && s[1].contains("alpha REAL NOT NULL"));
    assert!(s[2].contains("Palettes"));
    assert!(s[3].contains("FOREIGN KEY (color_id) REFERENCES Colors(id)"));
}
