//! The SQL statements of the palette database.
//!
//! Statements that name a row embed its id (and, for renaming, the new name
//! between double quotes) in their text; inserts leave their values to
//! parameters.
use vstd::prelude::*;
use crate::text::{decimal_text, push_decimal, push_str, string_from_chars};

verus! {

broadcast use vstd::string::group_string_axioms;

/// Which table a pruning pass cleans.
#[derive(Clone, Copy, Debug, PartialEq, Eq, Structural)]
pub enum Table {
    Colors,
    Palettes,
}

/// `a`, the decimal text of `x`, then `b`.
pub open spec fn with_id(a: Seq<char>, x: i64, b: Seq<char>) -> Seq<char> {
    a + decimal_text(x as int) + b
}

fn text_with_id(a: &str, x: i64, b: &str) -> (s: String)
    ensures
        s@ == with_id(a@, x, b@),
{
    let mut out: Vec<char> = Vec::new();
    push_str(&mut out, a);
    push_decimal(&mut out, x);
    push_str(&mut out, b);
    assert(out@ =~= with_id(a@, x, b@));
    string_from_chars(&out)
}

fn text_with_two_ids(a: &str, x: i64, b: &str, y: i64, c: &str) -> (s: String)
    ensures
        s@ == with_id(a@, x, b@) + decimal_text(y as int) + c@,
{
    let mut out: Vec<char> = Vec::new();
    push_str(&mut out, a);
    push_decimal(&mut out, x);
    push_str(&mut out, b);
    push_decimal(&mut out, y);
    push_str(&mut out, c);
    assert(out@ =~= with_id(a@, x, b@) + decimal_text(y as int) + c@);
    string_from_chars(&out)
}

fn text_of(a: &str) -> (s: String)
    ensures
        s@ == a@,
{
    a.to_string()
}

// ---------------------------------------------------------------------------
// Schema

pub open spec fn schema_text() -> Seq<Seq<char>> {
    seq![
        "PRAGMA foreign_keys = ON"@,
        "CREATE TABLE IF NOT EXISTS\n        Colors\n        (\n            id  INTEGER PRIMARY KEY,\n            red INTEGER NOT NULL,\n            green INTEGER NOT NULL,\n            blue INTEGER NOT NULL,\n            alpha REAL NOT NULL,\n            hex TEXT NOT NULL\n        );"@,
        "CREATE TABLE IF NOT EXISTS\n        Palettes\n        (\n            id  INTEGER PRIMARY KEY,\n            name TEXT NOT NULL\n        );"@,
        "CREATE TABLE IF NOT EXISTS\n        Palette_Color_Junction\n        (\n            id  INTEGER PRIMARY KEY,\n            palette_id INTEGER NOT NULL,\n            color_id INTEGER NOT NULL,\n            FOREIGN KEY (palette_id) REFERENCES Palettes(id),\n            FOREIGN KEY (color_id) REFERENCES Colors(id)\n        );"@,
    ]
}

/// The statements that set up the database, in the order they run.
pub fn schema_statements() -> (v: Vec<String>)
    ensures
        v@.map_values(|s: String| s@) == schema_text(),
{
    let mut v: Vec<String> = Vec::new();
    v.push(text_of("PRAGMA foreign_keys = ON"));
    v.push(text_of("CREATE TABLE IF NOT EXISTS\n        Colors\n        (\n            id  INTEGER PRIMARY KEY,\n            red INTEGER NOT NULL,\n            green INTEGER NOT NULL,\n            blue INTEGER NOT NULL,\n            alpha REAL NOT NULL,\n            hex TEXT NOT NULL\n        );"));
    v.push(text_of("CREATE TABLE IF NOT EXISTS\n        Palettes\n        (\n            id  INTEGER PRIMARY KEY,\n            name TEXT NOT NULL\n        );"));
    v.push(text_of("CREATE TABLE IF NOT EXISTS\n        Palette_Color_Junction\n        (\n            id  INTEGER PRIMARY KEY,\n            palette_id INTEGER NOT NULL,\n            color_id INTEGER NOT NULL,\n            FOREIGN KEY (palette_id) REFERENCES Palettes(id),\n            FOREIGN KEY (color_id) REFERENCES Colors(id)\n        );"));
    assert(v@.map_values(|s: String| s@) =~= schema_text());
    v
}

// ---------------------------------------------------------------------------
// Reading

pub fn select_all_colors() -> (s: String)
    ensures
        s@ == "SELECT * FROM Colors;"@,
{
    text_of("SELECT * FROM Colors;")
}

pub fn select_all_palettes() -> (s: String)
    ensures
        s@ == "SELECT * FROM Palettes;"@,
{
    text_of("SELECT * FROM Palettes;")
}

pub fn select_all_junctions() -> (s: String)
    ensures
        s@ == "SELECT * FROM Palette_Color_Junction;"@,
{
    text_of("SELECT * FROM Palette_Color_Junction;")
}

pub fn count_palettes() -> (s: String)
    ensures
        s@ == "SELECT count( * ) FROM Palettes;"@,
{
    text_of("SELECT count( * ) FROM Palettes;")
}

pub open spec fn colors_of_palette_text() -> Seq<char> {
    "SELECT color_id FROM Palette_Color_Junction WHERE palette_id = ?;"@
}

/// The colour ids of a palette; the palette id is its one parameter.
pub fn select_colors_of_palette() -> (s: String)
    ensures
        s@ == colors_of_palette_text(),
{
    text_of("SELECT color_id FROM Palette_Color_Junction WHERE palette_id = ?;")
}

// ---------------------------------------------------------------------------
// Adding

pub open spec fn insert_palette_text() -> Seq<char> {
    "INSERT INTO Palettes (name) VALUES ( ? );"@
}

pub fn insert_palette() -> (s: String)
    ensures
        s@ == insert_palette_text(),
{
    text_of("INSERT INTO Palettes (name) VALUES ( ? );")
}

pub open spec fn insert_color_text() -> Seq<char> {
    "INSERT INTO Colors (red, green, blue, alpha, hex) VALUES  ( ?, ?, ?, ?, ? );"@
}

pub fn insert_color() -> (s: String)
    ensures
        s@ == insert_color_text(),
{
    text_of("INSERT INTO Colors (red, green, blue, alpha, hex) VALUES  ( ?, ?, ?, ?, ? );")
}

pub open spec fn insert_junction_text() -> Seq<char> {
    "INSERT INTO Palette_Color_Junction (palette_id, color_id) VALUES  ( ?, ? );"@
}

pub fn insert_junction() -> (s: String)
    ensures
        s@ == insert_junction_text(),
{
    text_of("INSERT INTO Palette_Color_Junction (palette_id, color_id) VALUES  ( ?, ? );")
}

/// The ids of the colours with exactly these channels, alpha and hex name.
pub open spec fn find_color_text(r: i64, g: i64, b: i64, alpha: Seq<char>, hex: Seq<char>) -> Seq<
    char,
> {
    with_id("SELECT id FROM Colors WHERE red="@, r, " AND green="@) + decimal_text(g as int)
        + " AND blue="@ + decimal_text(b as int) + " AND alpha="@ + alpha + " AND hex=\""@ + hex
        + "\";"@
}

pub fn find_color(r: i64, g: i64, b: i64, alpha: &str, hex: &str) -> (s: String)
    ensures
        s@ == find_color_text(r, g, b, alpha@, hex@),
{
    let mut out: Vec<char> = Vec::new();
    push_str(&mut out, "SELECT id FROM Colors WHERE red=");
    push_decimal(&mut out, r);
    push_str(&mut out, " AND green=");
    push_decimal(&mut out, g);
    push_str(&mut out, " AND blue=");
    push_decimal(&mut out, b);
    push_str(&mut out, " AND alpha=");
    push_str(&mut out, alpha);
    push_str(&mut out, " AND hex=\"");
    push_str(&mut out, hex);
    push_str(&mut out, "\";");
    assert(out@ =~= find_color_text(r, g, b, alpha@, hex@));
    string_from_chars(&out)
}

/// The ids of the junction rows between a palette and a colour.
pub open spec fn find_junction_text(palette_id: i64, color_id: i64) -> Seq<char> {
    with_id("SELECT id FROM Palette_Color_Junction WHERE palette_id="@, palette_id, " AND color_id="@)
        + decimal_text(color_id as int) + ";"@
}

pub fn find_junction(palette_id: i64, color_id: i64) -> (s: String)
    ensures
        s@ == find_junction_text(palette_id, color_id),
{
    text_with_two_ids(
        "SELECT id FROM Palette_Color_Junction WHERE palette_id=",
        palette_id,
        " AND color_id=",
        color_id,
        ";",
    )
}

// ---------------------------------------------------------------------------
// Changing and removing

pub open spec fn rename_palette_text(name: Seq<char>, palette_id: i64) -> Seq<char> {
    "UPDATE Palettes SET name = \""@ + name + "\" WHERE id = "@ + decimal_text(palette_id as int)
        + ";"@
}

pub fn rename_palette(name: &str, palette_id: i64) -> (s: String)
    ensures
        s@ == rename_palette_text(name@, palette_id),
{
    let mut out: Vec<char> = Vec::new();
    push_str(&mut out, "UPDATE Palettes SET name = \"");
    push_str(&mut out, name);
    push_str(&mut out, "\" WHERE id = ");
    push_decimal(&mut out, palette_id);
    push_str(&mut out, ";");
    assert(out@ =~= rename_palette_text(name@, palette_id));
    string_from_chars(&out)
}

pub open spec fn remove_color_text(color_id: i64, palette_id: i64) -> Seq<char> {
    with_id("DELETE FROM Palette_Color_Junction WHERE color_id = "@, color_id, " AND palette_id = "@)
        + decimal_text(palette_id as int) + ";"@
}

/// Unlinks a colour from a palette.
pub fn remove_color(color_id: i64, palette_id: i64) -> (s: String)
    ensures
        s@ == remove_color_text(color_id, palette_id),
{
    text_with_two_ids(
        "DELETE FROM Palette_Color_Junction WHERE color_id = ",
        color_id,
        " AND palette_id = ",
        palette_id,
        ";",
    )
}

pub open spec fn unlink_palette_text(palette_id: i64) -> Seq<char> {
    with_id("DELETE FROM Palette_Color_Junction WHERE palette_id = "@, palette_id, ";"@)
}

/// Unlinks every colour of a palette.
pub fn unlink_palette(palette_id: i64) -> (s: String)
    ensures
        s@ == unlink_palette_text(palette_id),
{
    text_with_id("DELETE FROM Palette_Color_Junction WHERE palette_id = ", palette_id, ";")
}

pub open spec fn delete_palette_text(palette_id: i64) -> Seq<char> {
    with_id("DELETE FROM Palettes WHERE id = "@, palette_id, ";"@)
}

pub fn delete_palette(palette_id: i64) -> (s: String)
    ensures
        s@ == delete_palette_text(palette_id),
{
    text_with_id("DELETE FROM Palettes WHERE id = ", palette_id, ";")
}

// ---------------------------------------------------------------------------
// Pruning: rows of a table that no junction row names are deleted.

pub open spec fn list_ids_text(t: Table) -> Seq<char> {
    match t {
        Table::Colors => "SELECT id FROM Colors;"@,
        Table::Palettes => "SELECT id FROM Palettes;"@,
    }
}

/// The ids of all rows of the table.
pub fn list_ids(t: Table) -> (s: String)
    ensures
        s@ == list_ids_text(t),
{
    match t {
        Table::Colors => text_of("SELECT id FROM Colors;"),
        Table::Palettes => text_of("SELECT id FROM Palettes;"),
    }
}

pub open spec fn junctions_of_text(t: Table, id: i64) -> Seq<char> {
    match t {
        Table::Colors => with_id(
            "SELECT id FROM Palette_Color_Junction WHERE color_id = "@,
            id,
            ";"@,
        ),
        Table::Palettes => with_id(
            "SELECT id FROM Palette_Color_Junction WHERE palette_id = "@,
            id,
            ";"@,
        ),
    }
}

/// The junction rows that name the given row of the table.
pub fn junctions_of(t: Table, id: i64) -> (s: String)
    ensures
        s@ == junctions_of_text(t, id),
{
    match t {
        Table::Colors => text_with_id(
            "SELECT id FROM Palette_Color_Junction WHERE color_id = ",
            id,
            ";",
        ),
        Table::Palettes => text_with_id(
            "SELECT id FROM Palette_Color_Junction WHERE palette_id = ",
            id,
            ";",
        ),
    }
}

pub open spec fn delete_row_text(t: Table, id: i64) -> Seq<char> {
    match t {
        Table::Colors => with_id("DELETE FROM Colors WHERE id = "@, id, ";"@),
        Table::Palettes => with_id("DELETE FROM Palettes WHERE id = "@, id, ";"@),
    }
}

/// Deletes one row of the table.
pub fn delete_row(t: Table, id: i64) -> (s: String)
    ensures
        s@ == delete_row_text(t, id),
{
    match t {
        Table::Colors => text_with_id("DELETE FROM Colors WHERE id = ", id, ";"),
        Table::Palettes => text_with_id("DELETE FROM Palettes WHERE id = ", id, ";"),
    }
}


/// The rename statement holds the new name verbatim between its double
/// quotes, with the palette's id after them.
pub proof fn rename_text_holds_name(name: Seq<char>, palette_id: i64)
    ensures
        rename_palette_text(name, palette_id).subrange(0, 28) == "UPDATE Palettes SET name = \""@,
        rename_palette_text(name, palette_id).subrange(28, 28 + name.len() as int) == name,
        rename_palette_text(name, palette_id).subrange(
            28 + name.len() as int,
            rename_palette_text(name, palette_id).len() as int,
        ) == "\" WHERE id = "@ + decimal_text(palette_id as int) + ";"@,
{
    reveal_strlit("UPDATE Palettes SET name = \"");
    let p = "UPDATE Palettes SET name = \""@;
    let rest = "\" WHERE id = "@ + decimal_text(palette_id as int) + ";"@;
    let t = rename_palette_text(name, palette_id);
    assert(t =~= p + name + rest);
    assert(t.subrange(0, 28) =~= p);
    assert(t.subrange(28, 28 + name.len() as int) =~= name);
    assert(t.subrange(28 + name.len() as int, t.len() as int) =~= rest);
}

/// The colour query names the red, green and blue channels, in that order,
/// then the alpha text and the hex name between double quotes.
pub proof fn find_color_text_names_channels(r: i64, g: i64, b: i64, alpha: Seq<char>, hex: Seq<char>)
    ensures
        find_color_text(r, g, b, alpha, hex) == "SELECT id FROM Colors WHERE red="@ + decimal_text(r as int)
            + " AND green="@ + decimal_text(g as int) + " AND blue="@ + decimal_text(b as int)
            + " AND alpha="@ + alpha + " AND hex=\""@ + hex + "\";"@,
{
    assert(find_color_text(r, g, b, alpha, hex) =~= "SELECT id FROM Colors WHERE red="@ + decimal_text(r as int)
        + " AND green="@ + decimal_text(g as int) + " AND blue="@ + decimal_text(b as int)
        + " AND alpha="@ + alpha + " AND hex=\""@ + hex + "\";"@);
}
} // verus!
