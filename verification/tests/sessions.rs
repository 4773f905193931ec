use paleta::extracted_color::ExtractedColor;
use paleta::transaction::{ColorSpec, Params, Reply, Request, Session};

/// Runs a session, answering each request with the next scripted reply, and
/// returns every request made (the last one is `Finish`).
fn run(mut s: Session, replies: Vec<Reply>) -> Vec<Request> {
    let mut out = Vec::new();
    let mut replies = replies.into_iter();
    let mut r = s.advance(Reply::Done);
    loop {
        let done = matches!(r, Request::Finish { .. });
        out.push(r);
        if done {
            break;
        }
        r = s.advance(replies.next().expect("a reply for every request"));
    }
    out
}

fn query(sql: &str) -> Request {
    Request::Query { sql: sql.to_string(), params: Params::Nothing }
}

fn exec(sql: &str) -> Request {
    Request::Execute { sql: sql.to_string() }
}

fn red() -> ColorSpec {
    ColorSpec { red: 255, green: 0, blue: 0, alpha: "1".to_string(), hex: "#FF0000".to_string() }
}

const INSERT_COLOR: &str = "INSERT INTO Colors (red, green, blue, alpha, hex) VALUES  ( ?, ?, ?, ?, ? );";
const INSERT_JUNCTION: &str = "INSERT INTO Palette_Color_Junction (palette_id, color_id) VALUES  ( ?, ? );";
const FIND_RED: &str = "SELECT id FROM Colors WHERE red=255 AND green=0 AND blue=0 AND alpha=1 AND hex=\"#FF0000\";";

#[test]
fn add_palette_new_inserts_everything_missing() {
    let s = Session::add_palette_new("Warm".to_string(), "#FF0000".to_string(), (255, 0, 0, "1".to_string()));
    let reqs = run(s, vec![
        Reply::Done,
        Reply::RowId(7),
        Reply::Ids(vec![]),
        Reply::RowId(3),
        Reply::Ids(vec![]),
        Reply::RowId(40),
        Reply::Done,
    ]);
    assert_eq!(reqs, vec![
        Request::Begin,
        Request::Insert {
            sql: "INSERT INTO Palettes (name) VALUES ( ? );".to_string(),
            params: Params::Name("Warm".to_string()),
        },
        query(FIND_RED),
        Request::Insert { sql: INSERT_COLOR.to_string(), params: Params::Color(red()) },
        query("SELECT id FROM Palette_Color_Junction WHERE palette_id=7 AND color_id=3;"),
        Request::Insert { sql: INSERT_JUNCTION.to_string(), params: Params::Junction(7, 3) },
        Request::Commit,
        Request::Finish { success: true },
    ]);
}

#[test]
fn existing_color_is_reused() {
    let s = Session::add_palette_new("Warm".to_string(), "#FF0000".to_string(), (255, 0, 0, "1".to_string()));
    let reqs = run(s, vec![
        Reply::Done,
        Reply::RowId(7),
        Reply::Ids(vec![5, 6]),
        Reply::Ids(vec![]),
        Reply::RowId(40),
        Reply::Done,
    ]);
    assert_eq!(reqs[3], query("SELECT id FROM Palette_Color_Junction WHERE palette_id=7 AND color_id=5;"));
    assert_eq!(reqs[4], Request::Insert { sql: INSERT_JUNCTION.to_string(), params: Params::Junction(7, 5) });
    assert_eq!(reqs.last(), Some(&Request::Finish { success: true }));
    assert!(!reqs.iter().any(|r| matches!(r, Request::Insert { params: Params::Color(_), .. })));
}

#[test]
fn existing_link_is_not_duplicated() {
    let s = Session::add_color_to_palette(9, "#FF0000".to_string(), (255, 0, 0, "1".to_string()));
    let reqs = run(s, vec![Reply::Done, Reply::Ids(vec![5]), Reply::Ids(vec![11]), Reply::Done]);
    assert_eq!(reqs, vec![
        Request::Begin,
        query(FIND_RED),
        query("SELECT id FROM Palette_Color_Junction WHERE palette_id=9 AND color_id=5;"),
        Request::Commit,
        Request::Finish { success: true },
    ]);
}

#[test]
fn required_failure_ends_without_commit() {
    let s = Session::add_color_to_palette(9, "#FF0000".to_string(), (255, 0, 0, "1".to_string()));
    let reqs = run(s, vec![Reply::Done, Reply::Ids(vec![]), Reply::Failed]);
    assert_eq!(reqs.last(), Some(&Request::Finish { success: false }));
    assert!(!reqs.contains(&Request::Commit));

    let s = Session::add_palette_new("W".to_string(), "#FF0000".to_string(), (255, 0, 0, "1".to_string()));
    let reqs = run(s, vec![Reply::Failed]);
    assert_eq!(reqs, vec![Request::Begin, Request::Finish { success: false }]);
}

#[test]
fn failed_commit_is_a_failure() {
    let s = Session::delete_palette(4);
    let reqs = run(s, vec![Reply::Done, Reply::Done, Reply::Done, Reply::Ids(vec![]), Reply::Failed]);
    assert_eq!(reqs, vec![
        Request::Begin,
        exec("DELETE FROM Palette_Color_Junction WHERE palette_id = 4;"),
        exec("DELETE FROM Palettes WHERE id = 4;"),
        query("SELECT id FROM Colors;"),
        Request::Commit,
        Request::Finish { success: false },
    ]);
}

#[test]
fn rename_prunes_unlinked_rows() {
    let s = Session::rename_palette(12, "Sea".to_string());
    let reqs = run(s, vec![
        Reply::Done,
        Reply::Done,
        Reply::Ids(vec![1, 2]),
        Reply::Ids(vec![]),
        Reply::Done,
        Reply::Ids(vec![8]),
        Reply::Ids(vec![12, 13]),
        Reply::Ids(vec![8]),
        Reply::Ids(vec![]),
        Reply::Done,
        Reply::Done,
    ]);
    assert_eq!(reqs, vec![
        Request::Begin,
        exec("UPDATE Palettes SET name = \"Sea\" WHERE id = 12;"),
        query("SELECT id FROM Colors;"),
        query("SELECT id FROM Palette_Color_Junction WHERE color_id = 1;"),
        exec("DELETE FROM Colors WHERE id = 1;"),
        query("SELECT id FROM Palette_Color_Junction WHERE color_id = 2;"),
        query("SELECT id FROM Palettes;"),
        query("SELECT id FROM Palette_Color_Junction WHERE palette_id = 12;"),
        query("SELECT id FROM Palette_Color_Junction WHERE palette_id = 13;"),
        exec("DELETE FROM Palettes WHERE id = 13;"),
        Request::Commit,
        Request::Finish { success: true },
    ]);
}

#[test]
fn remove_color_then_prune() {
    let s = Session::remove_color_from_palette(2, 12);
    let reqs = run(s, vec![Reply::Done, Reply::Done, Reply::Ids(vec![]), Reply::Failed]);
    assert_eq!(reqs, vec![
        Request::Begin,
        exec("DELETE FROM Palette_Color_Junction WHERE color_id = 2 AND palette_id = 12;"),
        query("SELECT id FROM Colors;"),
        query("SELECT id FROM Palettes;"),
        Request::Finish { success: false },
    ]);
}

#[test]
fn duplicate_copies_links() {
    let s = Session::duplicate_palette(12, "Sea duplicate".to_string());
    let reqs = run(s, vec![
        Reply::Ids(vec![1, 2]),
        Reply::Done,
        Reply::RowId(30),
        Reply::Ids(vec![]),
        Reply::Failed,
        Reply::Ids(vec![]),
        Reply::RowId(51),
        Reply::Done,
    ]);
    assert_eq!(reqs, vec![
        Request::Query {
            sql: "SELECT color_id FROM Palette_Color_Junction WHERE palette_id = ?;".to_string(),
            params: Params::PaletteId(12),
        },
        Request::Begin,
        Request::Insert {
            sql: "INSERT INTO Palettes (name) VALUES ( ? );".to_string(),
            params: Params::Name("Sea duplicate".to_string()),
        },
        query("SELECT id FROM Palette_Color_Junction WHERE palette_id=30 AND color_id=1;"),
        Request::Insert { sql: INSERT_JUNCTION.to_string(), params: Params::Junction(30, 1) },
        query("SELECT id FROM Palette_Color_Junction WHERE palette_id=30 AND color_id=2;"),
        Request::Insert { sql: INSERT_JUNCTION.to_string(), params: Params::Junction(30, 2) },
        Request::Commit,
        Request::Finish { success: true },
    ]);
}

#[test]
fn duplicate_of_empty_palette_fails() {
    let s = Session::duplicate_palette(12, "copy".to_string());
    let reqs = run(s, vec![Reply::Ids(vec![])]);
    assert_eq!(reqs.len(), 2);
    assert_eq!(reqs[1], Request::Finish { success: false });
    let s = Session::duplicate_palette(12, "copy".to_string());
    let reqs = run(s, vec![Reply::Failed]);
    assert_eq!(reqs[1], Request::Finish { success: false });
}

#[test]
fn extracted_colors_are_saved_one_by_one() {
    let colors = vec![ExtractedColor::new((255, 0, 0)), ExtractedColor::new((0, 0, 255))];
    let s = Session::add_palette_from_extracted("Image".to_string(), &colors);
    let reqs = run(s, vec![
        Reply::Done,
        Reply::RowId(5),
        Reply::Failed, // the first colour cannot be looked up: passed over, not linked
        Reply::Ids(vec![]),
        Reply::RowId(8),
        Reply::Ids(vec![]),
        Reply::RowId(60),
        Reply::Done,
    ]);
    assert_eq!(reqs, vec![
        Request::Begin,
        Request::Insert {
            sql: "INSERT INTO Palettes (name) VALUES ( ? );".to_string(),
            params: Params::Name("Image".to_string()),
        },
        query(FIND_RED),
        query("SELECT id FROM Colors WHERE red=0 AND green=0 AND blue=255 AND alpha=1 AND hex=\"#0000FF\";"),
        Request::Insert {
            sql: INSERT_COLOR.to_string(),
            params: Params::Color(ColorSpec {
                red: 0,
                green: 0,
                blue: 255,
                alpha: "1".to_string(),
                hex: "#0000FF".to_string(),
            }),
        },
        query("SELECT id FROM Palette_Color_Junction WHERE palette_id=5 AND color_id=8;"),
        Request::Insert { sql: INSERT_JUNCTION.to_string(), params: Params::Junction(5, 8) },
        Request::Commit,
        Request::Finish { success: true },
    ]);
}

#[test]
fn finished_session_stays_finished() {
    let mut s = Session::delete_palette(1);
    assert_eq!(s.advance(Reply::Done), Request::Begin);
    assert_eq!(s.advance(Reply::Failed), Request::Finish { success: false });
    assert_eq!(s.advance(Reply::Done), Request::Finish { success: false });
}

#[test]
fn wrong_kind_of_reply_counts_as_failure() {
    let mut s = Session::delete_palette(1);
    assert_eq!(s.advance(Reply::Done), Request::Begin);
    assert_eq!(s.advance(Reply::RowId(3)), Request::Finish { success: false });
}

#[test]
fn adding_a_color_twice_adds_nothing_the_second_time() {
    // Palette 7 exists; the tables hold no colour yet.
    let first = run(
        Session::add_color_to_palette(7, "#FF0000".to_string(), (255, 0, 0, "1".to_string())),
        vec![Reply::Done, Reply::Ids(vec![]), Reply::RowId(1), Reply::Ids(vec![]), Reply::RowId(1), Reply::Done],
    );
    assert_eq!(first.last(), Some(&Request::Finish { success: true }));
    // Now colour 1 holds red, and link 1 joins it to palette 7.
    let second = run(
        Session::add_color_to_palette(7, "#FF0000".to_string(), (255, 0, 0, "1".to_string())),
        vec![Reply::Done, Reply::Ids(vec![1]), Reply::Ids(vec![1]), Reply::Done],
    );
    assert_eq!(second, vec![
        Request::Begin,
        query(FIND_RED),
        query("SELECT id FROM Palette_Color_Junction WHERE palette_id=7 AND color_id=1;"),
        Request::Commit,
        Request::Finish { success: true },
    ]);
}

#[test]
fn removing_an_added_color_deletes_only_it() {
    // Palette 7 holds colour 2 through link 1; red is added as colour 3.
    let added = run(
        Session::add_color_to_palette(7, "#FF0000".to_string(), (255, 0, 0, "1".to_string())),
        vec![Reply::Done, Reply::Ids(vec![]), Reply::RowId(3), Reply::Ids(vec![]), Reply::RowId(2), Reply::Done],
    );
    assert_eq!(added[4], Request::Insert { sql: INSERT_JUNCTION.to_string(), params: Params::Junction(7, 3) });
    let removed = run(Session::remove_color_from_palette(3, 7), vec![
        Reply::Done,
        Reply::Done,
        Reply::Ids(vec![2, 3]),
        Reply::Ids(vec![1]),
        Reply::Ids(vec![]),
        Reply::Done,
        Reply::Ids(vec![7]),
        Reply::Ids(vec![1]),
        Reply::Done,
    ]);
    assert_eq!(removed, vec![
        Request::Begin,
        exec("DELETE FROM Palette_Color_Junction WHERE color_id = 3 AND palette_id = 7;"),
        query("SELECT id FROM Colors;"),
        query("SELECT id FROM Palette_Color_Junction WHERE color_id = 2;"),
        query("SELECT id FROM Palette_Color_Junction WHERE color_id = 3;"),
        exec("DELETE FROM Colors WHERE id = 3;"),
        query("SELECT id FROM Palettes;"),
        query("SELECT id FROM Palette_Color_Junction WHERE palette_id = 7;"),
        Request::Commit,
        Request::Finish { success: true },
    ]);
}

#[test]
fn deleting_a_palette_twice_deletes_nothing_more() {
    // Palette 4 holds colours 2 and 3; colour 3 is also in palette 5 (link 9).
    let first = run(Session::delete_palette(4), vec![
        Reply::Done,
        Reply::Done,
        Reply::Done,
        Reply::Ids(vec![2, 3]),
        Reply::Ids(vec![]),
        Reply::Done,
        Reply::Ids(vec![9]),
        Reply::Done,
    ]);
    assert_eq!(first[5], exec("DELETE FROM Colors WHERE id = 2;"));
    assert_eq!(first.last(), Some(&Request::Finish { success: true }));
    let second = run(Session::delete_palette(4), vec![
        Reply::Done,
        Reply::Done,
        Reply::Done,
        Reply::Ids(vec![3]),
        Reply::Ids(vec![9]),
        Reply::Done,
    ]);
    assert_eq!(second, vec![
        Request::Begin,
        exec("DELETE FROM Palette_Color_Junction WHERE palette_id = 4;"),
        exec("DELETE FROM Palettes WHERE id = 4;"),
        query("SELECT id FROM Colors;"),
        query("SELECT id FROM Palette_Color_Junction WHERE color_id = 3;"),
        Request::Commit,
        Request::Finish { success: true },
    ]);
}
