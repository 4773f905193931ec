//! What the palette database's tables hold, and what each request of a
//! session does to them; with it, properties of whole operations.
//!
//! Rows are kept in id order, as the tables list them. A new row gets the
//! next id after the largest; a link needs its palette and colour to exist,
//! and a row that a link names cannot be deleted (the foreign keys). Alpha
//! values compare as the texts the library carries for them.
use vstd::prelude::*;
use crate::sql::Table;
use crate::transaction::{
    ColorSpecView, ReplyView, RequestView, SessionView, Stage, StatementView, TaskView, step,
    current_table, prune_from, launch, task_done, add_color_to_palette_session, remove_color_from_palette_session,
    delete_palette_session, duplicate_palette_session, copy_from, extracted_palette_session,
    extracted_color_tasks, extracted_spec, rgba_spec, rename_palette_session,
};
use crate::extracted_color::ExtractedColorView;

verus! {

pub struct Tables {
    /// id and values of each colour
    pub colors: Seq<(i64, ColorSpecView)>,
    /// id and name of each palette
    pub palettes: Seq<(i64, Seq<char>)>,
    /// id, palette id and colour id of each link
    pub junctions: Seq<(i64, i64, i64)>,
}

pub open spec fn max_id(ids: Seq<i64>) -> int
    decreases ids.len(),
{
    if ids.len() == 0 {
        0
    } else if max_id(ids.drop_last()) < ids.last() {
        ids.last() as int
    } else {
        max_id(ids.drop_last())
    }
}

/// The id a new row gets.
pub open spec fn new_id(ids: Seq<i64>) -> i64 {
    (max_id(ids) + 1) as i64
}

pub open spec fn color_ids(rows: Seq<(i64, ColorSpecView)>) -> Seq<i64> {
    rows.map_values(|r: (i64, ColorSpecView)| r.0)
}

pub open spec fn palette_ids(rows: Seq<(i64, Seq<char>)>) -> Seq<i64> {
    rows.map_values(|r: (i64, Seq<char>)| r.0)
}

pub open spec fn junction_ids(rows: Seq<(i64, i64, i64)>) -> Seq<i64> {
    rows.map_values(|r: (i64, i64, i64)| r.0)
}

/// The ids of the colours with exactly these values.
pub open spec fn matching_colors(rows: Seq<(i64, ColorSpecView)>, c: ColorSpecView) -> Seq<i64>
    decreases rows.len(),
{
    if rows.len() == 0 {
        Seq::empty()
    } else if rows.last().1 == c {
        matching_colors(rows.drop_last(), c).push(rows.last().0)
    } else {
        matching_colors(rows.drop_last(), c)
    }
}

/// The ids of the links between a palette and a colour.
pub open spec fn links_between(rows: Seq<(i64, i64, i64)>, pid: i64, cid: i64) -> Seq<i64>
    decreases rows.len(),
{
    if rows.len() == 0 {
        Seq::empty()
    } else if rows.last().1 == pid && rows.last().2 == cid {
        links_between(rows.drop_last(), pid, cid).push(rows.last().0)
    } else {
        links_between(rows.drop_last(), pid, cid)
    }
}

/// Whether a link names the row `id` of the table.
pub open spec fn names(r: (i64, i64, i64), t: Table, id: i64) -> bool {
    match t {
        Table::Colors => r.2 == id,
        Table::Palettes => r.1 == id,
    }
}

/// The ids of the links that name the row `id` of the table.
pub open spec fn links_of(rows: Seq<(i64, i64, i64)>, t: Table, id: i64) -> Seq<i64>
    decreases rows.len(),
{
    if rows.len() == 0 {
        Seq::empty()
    } else if names(rows.last(), t, id) {
        links_of(rows.drop_last(), t, id).push(rows.last().0)
    } else {
        links_of(rows.drop_last(), t, id)
    }
}

/// The colour ids of a palette's links.
pub open spec fn colors_of_palette(rows: Seq<(i64, i64, i64)>, pid: i64) -> Seq<i64>
    decreases rows.len(),
{
    if rows.len() == 0 {
        Seq::empty()
    } else if rows.last().1 == pid {
        colors_of_palette(rows.drop_last(), pid).push(rows.last().2)
    } else {
        colors_of_palette(rows.drop_last(), pid)
    }
}

/// The links without those that `drop` picks.
pub open spec fn drop_links(rows: Seq<(i64, i64, i64)>, drop: spec_fn((i64, i64, i64)) -> bool) -> Seq<
    (i64, i64, i64),
>
    decreases rows.len(),
{
    if rows.len() == 0 {
        Seq::empty()
    } else if drop(rows.last()) {
        drop_links(rows.drop_last(), drop)
    } else {
        drop_links(rows.drop_last(), drop).push(rows.last())
    }
}

pub open spec fn drop_color(rows: Seq<(i64, ColorSpecView)>, id: i64) -> Seq<(i64, ColorSpecView)>
    decreases rows.len(),
{
    if rows.len() == 0 {
        Seq::empty()
    } else if rows.last().0 == id {
        drop_color(rows.drop_last(), id)
    } else {
        drop_color(rows.drop_last(), id).push(rows.last())
    }
}

pub open spec fn drop_palette(rows: Seq<(i64, Seq<char>)>, id: i64) -> Seq<(i64, Seq<char>)>
    decreases rows.len(),
{
    if rows.len() == 0 {
        Seq::empty()
    } else if rows.last().0 == id {
        drop_palette(rows.drop_last(), id)
    } else {
        drop_palette(rows.drop_last(), id).push(rows.last())
    }
}

pub open spec fn renamed(rows: Seq<(i64, Seq<char>)>, id: i64, name: Seq<char>) -> Seq<
    (i64, Seq<char>),
> {
    rows.map_values(|r: (i64, Seq<char>)| if r.0 == id { (id, name) } else { r })
}

/// The ids of the rows of a table.
pub open spec fn table_ids(db: Tables, t: Table) -> Seq<i64> {
    match t {
        Table::Colors => color_ids(db.colors),
        Table::Palettes => palette_ids(db.palettes),
    }
}

/// The tables without the row `id` of table `t`.
pub open spec fn without_row(db: Tables, t: Table, id: i64) -> Tables {
    match t {
        Table::Colors => Tables { colors: drop_color(db.colors, id), ..db },
        Table::Palettes => Tables { palettes: drop_palette(db.palettes, id), ..db },
    }
}

/// A new link, when its palette and colour exist.
pub open spec fn link(db: Tables, pid: i64, cid: i64) -> (Tables, ReplyView) {
    if palette_ids(db.palettes).contains(pid) && color_ids(db.colors).contains(cid) {
        let id = new_id(junction_ids(db.junctions));
        (Tables { junctions: db.junctions.push((id, pid, cid)), ..db }, ReplyView::RowId(id))
    } else {
        (db, ReplyView::Failed)
    }
}

/// Deletes the row `id` of table `t`, unless a link names it.
pub open spec fn delete_row(db: Tables, t: Table, id: i64) -> (Tables, ReplyView) {
    if links_of(db.junctions, t, id).len() > 0 {
        (db, ReplyView::Failed)
    } else {
        (without_row(db, t, id), ReplyView::Done)
    }
}

pub open spec fn execute(db: Tables, st: StatementView) -> (Tables, ReplyView) {
    match st {
        StatementView::Rename { palette_id, name } => (
            Tables { palettes: renamed(db.palettes, palette_id, name), ..db },
            ReplyView::Done,
        ),
        StatementView::RemoveColor { color_id, palette_id } => (
            Tables {
                junctions: drop_links(
                    db.junctions,
                    |r: (i64, i64, i64)| r.1 == palette_id && r.2 == color_id,
                ),
                ..db
            },
            ReplyView::Done,
        ),
        StatementView::UnlinkPalette { palette_id } => (
            Tables {
                junctions: drop_links(db.junctions, |r: (i64, i64, i64)| r.1 == palette_id),
                ..db
            },
            ReplyView::Done,
        ),
        StatementView::DeletePalette { palette_id } => delete_row(db, Table::Palettes, palette_id),
    }
}

/// The tables after the database performs the request that session `s` has
/// just made, and the database's reply.
pub open spec fn answer(db: Tables, s: SessionView) -> (Tables, ReplyView) {
    let task = s.tasks[s.next];
    match s.stage {
        Stage::Begin => (db, ReplyView::Done),
        Stage::LoadColors => match task {
            TaskView::LoadPaletteColors { palette_id } => (
                db,
                ReplyView::Ids(colors_of_palette(db.junctions, palette_id)),
            ),
            _ => (db, ReplyView::Failed),
        },
        Stage::NewPalette => match task {
            TaskView::NewPalette { name } => {
                let id = new_id(palette_ids(db.palettes));
                (Tables { palettes: db.palettes.push((id, name)), ..db }, ReplyView::RowId(id))
            },
            _ => (db, ReplyView::Failed),
        },
        Stage::FindColor => match task {
            TaskView::AddColor { color, required } => (
                db,
                ReplyView::Ids(matching_colors(db.colors, color)),
            ),
            _ => (db, ReplyView::Failed),
        },
        Stage::InsertColor => match task {
            TaskView::AddColor { color, required } => {
                let id = new_id(color_ids(db.colors));
                (Tables { colors: db.colors.push((id, color)), ..db }, ReplyView::RowId(id))
            },
            _ => (db, ReplyView::Failed),
        },
        Stage::FindJunction => (
            db,
            ReplyView::Ids(links_between(db.junctions, s.palette_id, s.color_id.unwrap())),
        ),
        Stage::InsertJunction => link(db, s.palette_id, s.color_id.unwrap()),
        Stage::CopyFind(i) => (
            db,
            ReplyView::Ids(links_between(db.junctions, s.palette_id, s.loaded[i as int])),
        ),
        Stage::CopyInsert(i) => link(db, s.palette_id, s.loaded[i as int]),
        Stage::Execute => match task {
            TaskView::Execute { statement } => execute(db, statement),
            _ => (db, ReplyView::Failed),
        },
        Stage::PruneList => (db, ReplyView::Ids(table_ids(db, current_table(s)))),
        Stage::PruneCheck(i) => (
            db,
            ReplyView::Ids(links_of(db.junctions, current_table(s), s.candidates[i as int])),
        ),
        Stage::PruneDelete(i) => delete_row(db, current_table(s), s.candidates[i as int]),
        Stage::Commit => (db, ReplyView::Done),
        _ => (db, ReplyView::Failed),
    }
}

/// Carries a session on from its request `req`, the database answering,
/// for at most `fuel` replies: the tables and the result once it finishes.
pub open spec fn run(s: SessionView, req: RequestView, db: Tables, fuel: nat) -> Option<(Tables, bool)>
    decreases fuel,
{
    match req {
        RequestView::Finish { success } => Some((db, success)),
        _ => if fuel == 0 {
            None
        } else {
            let (db2, reply) = answer(db, s);
            let (s2, req2) = step(s, reply);
            run(s2, req2, db2, (fuel - 1) as nat)
        },
    }
}

/// An operation from its start: on success the tables it leaves, otherwise
/// the tables as they were (its transaction is not committed).
pub open spec fn outcome(session: SessionView, db: Tables, fuel: nat) -> Option<(Tables, bool)> {
    let (s1, r1) = step(session, ReplyView::Done);
    match run(s1, r1, db, fuel) {
        Some((db2, true)) => Some((db2, true)),
        Some((_, false)) => Some((db, false)),
        None => None,
    }
}

/// The operation, started on `db`, finishes with result `success` and leaves
/// the tables `db2`.
pub open spec fn performs(session: SessionView, db: Tables, db2: Tables, success: bool) -> bool {
    exists|fuel: nat| outcome(session, db, fuel) == Some((db2, success))
}

// ---------------------------------------------------------------------------

proof fn lemma_matching_push(rows: Seq<(i64, ColorSpecView)>, r: (i64, ColorSpecView), c: ColorSpecView)
    ensures
        matching_colors(rows.push(r), c) == if r.1 == c {
            matching_colors(rows, c).push(r.0)
        } else {
            matching_colors(rows, c)
        },
{
    assert(rows.push(r).drop_last() =~= rows);
}

proof fn lemma_links_between_push(rows: Seq<(i64, i64, i64)>, r: (i64, i64, i64), pid: i64, cid: i64)
    ensures
        links_between(rows.push(r), pid, cid) == if r.1 == pid && r.2 == cid {
            links_between(rows, pid, cid).push(r.0)
        } else {
            links_between(rows, pid, cid)
        },
{
    assert(rows.push(r).drop_last() =~= rows);
}

/// On tables that already hold the colour and its link, linking the colour
/// to the palette again changes nothing.
proof fn lemma_add_color_again(pid: i64, c: ColorSpecView, db: Tables)
    requires
        matching_colors(db.colors, c).len() > 0,
        links_between(db.junctions, pid, matching_colors(db.colors, c)[0]).len() > 0,
    ensures
        outcome(add_color_to_palette_session(pid, c), db, 4) == Some((db, true)),
{
    let s0 = add_color_to_palette_session(pid, c);
    let (s1, r1) = step(s0, ReplyView::Done);
    assert(s1.stage == Stage::Begin);
    let (s2, r2) = step(s1, answer(db, s1).1);
    assert(s2.stage == Stage::FindColor && s2.next == 1);
    let m = matching_colors(db.colors, c);
    assert(answer(db, s2) == (db, ReplyView::Ids(m)));
    let (s3, r3) = step(s2, ReplyView::Ids(m));
    assert(s3.stage == Stage::FindJunction && s3.next == 2 && s3.color_id == Some(m[0]));
    let l = links_between(db.junctions, pid, m[0]);
    assert(answer(db, s3) == (db, ReplyView::Ids(l)));
    let (s4, r4) = step(s3, ReplyView::Ids(l));
    assert(s4.stage == Stage::Commit && r4 == RequestView::Commit);
    assert(answer(db, s4) == (db, ReplyView::Done));
    assert(step(s4, ReplyView::Done).1 == (RequestView::Finish { success: true }));
    let s5 = step(s4, ReplyView::Done).0;
    assert(run(s5, RequestView::Finish { success: true }, db, 0) == Some((db, true)));
    assert(run(s4, r4, db, 1) == run(s5, RequestView::Finish { success: true }, db, 0));
    assert(run(s4, r4, db, 1) == Some((db, true)));
    assert(run(s3, r3, db, 2) == Some((db, true)));
    assert(run(s2, r2, db, 3) == Some((db, true)));
    assert(run(s1, r1, db, 4) == Some((db, true)));
}


/// More fuel does not change a finished run.
pub proof fn lemma_run_fuel(s: SessionView, req: RequestView, db: Tables, f: nat, g: nat)
    requires
        run(s, req, db, f) is Some,
        f <= g,
    ensures
        run(s, req, db, g) == run(s, req, db, f),
    decreases f,
{
    if !(req is Finish) && f > 0 {
        let (db2, reply) = answer(db, s);
        let (s2, req2) = step(s, reply);
        lemma_run_fuel(s2, req2, db2, (f - 1) as nat, (g - 1) as nat);
    }
}

proof fn lemma_color_ids_push(rows: Seq<(i64, ColorSpecView)>, r: (i64, ColorSpecView))
    ensures
        color_ids(rows.push(r)).contains(r.0),
        color_ids(rows.push(r)) == color_ids(rows).push(r.0),
{
    assert(color_ids(rows.push(r)) =~= color_ids(rows).push(r.0));
    assert(color_ids(rows.push(r))[rows.len() as int] == r.0);
}

/// After linking a colour to a palette succeeds, the tables hold a colour
/// with its values, and the first such colour is linked to the palette.
proof fn lemma_add_color_result(pid: i64, c: ColorSpecView, db: Tables, f: nat, db1: Tables)
    requires
        outcome(add_color_to_palette_session(pid, c), db, f) == Some((db1, true)),
    ensures
        matching_colors(db1.colors, c).len() > 0,
        links_between(db1.junctions, pid, matching_colors(db1.colors, c)[0]).len() > 0,
{
    let s0 = add_color_to_palette_session(pid, c);
    let (s1, r1) = step(s0, ReplyView::Done);
    assert(s1.stage == Stage::Begin);
    assert(answer(db, s1) == (db, ReplyView::Done));
    let (s2, r2) = step(s1, ReplyView::Done);
    assert(s2.stage == Stage::FindColor && s2.next == 1);
    assert(run(s1, r1, db, f) == run(s2, r2, db, (f - 1) as nat));
    let f2 = (f - 1) as nat;
    let m = matching_colors(db.colors, c);
    assert(answer(db, s2) == (db, ReplyView::Ids(m)));
    let (s3, r3) = step(s2, ReplyView::Ids(m));
    assert(run(s2, r2, db, f2) == run(s3, r3, db, (f2 - 1) as nat));
    let f3 = (f2 - 1) as nat;
    if m.len() > 0 {
        assert(s3.stage == Stage::FindJunction && s3.next == 2 && s3.color_id == Some(m[0]));
        let l = links_between(db.junctions, pid, m[0]);
        assert(answer(db, s3) == (db, ReplyView::Ids(l)));
        let (s4, r4) = step(s3, ReplyView::Ids(l));
        assert(run(s3, r3, db, f3) == run(s4, r4, db, (f3 - 1) as nat));
        let f4 = (f3 - 1) as nat;
        if l.len() > 0 {
            assert(s4.stage == Stage::Commit);
            assert(answer(db, s4) == (db, ReplyView::Done));
            let s5 = step(s4, ReplyView::Done).0;
            assert(run(s4, r4, db, f4) == run(s5, RequestView::Finish { success: true }, db, (f4 - 1) as nat));
        } else {
            assert(s4.stage == Stage::InsertJunction);
            let (db4, rep4) = link(db, pid, m[0]);
            assert(answer(db, s4) == (db4, rep4));
            let (s5, r5) = step(s4, rep4);
            assert(run(s4, r4, db, f4) == run(s5, r5, db4, (f4 - 1) as nat));
            if rep4 is RowId {
                let j = new_id(junction_ids(db.junctions));
                assert(db4.junctions == db.junctions.push((j, pid, m[0])));
                lemma_links_between_push(db.junctions, (j, pid, m[0]), pid, m[0]);
                assert(s5.stage == Stage::Commit);
                assert(answer(db4, s5) == (db4, ReplyView::Done));
                let s6 = step(s5, ReplyView::Done).0;
                assert(run(s5, r5, db4, (f4 - 1) as nat) == run(s6, RequestView::Finish { success: true }, db4, (f4 - 2) as nat));
            } else {
                assert(r5 == RequestView::Finish { success: false });
            }
        }
    } else {
        assert(s3.stage == Stage::InsertColor);
        let cid = new_id(color_ids(db.colors));
        let dbc = Tables { colors: db.colors.push((cid, c)), ..db };
        assert(answer(db, s3) == (dbc, ReplyView::RowId(cid)));
        lemma_matching_push(db.colors, (cid, c), c);
        lemma_color_ids_push(db.colors, (cid, c));
        assert(matching_colors(dbc.colors, c) =~= seq![cid]);
        let (s4, r4) = step(s3, ReplyView::RowId(cid));
        assert(s4.stage == Stage::FindJunction && s4.color_id == Some(cid));
        assert(run(s3, r3, db, f3) == run(s4, r4, dbc, (f3 - 1) as nat));
        let f4 = (f3 - 1) as nat;
        let l = links_between(dbc.junctions, pid, cid);
        assert(answer(dbc, s4) == (dbc, ReplyView::Ids(l)));
        let (s5, r5) = step(s4, ReplyView::Ids(l));
        assert(run(s4, r4, dbc, f4) == run(s5, r5, dbc, (f4 - 1) as nat));
        let f5 = (f4 - 1) as nat;
        if l.len() > 0 {
            assert(s5.stage == Stage::Commit);
            assert(answer(dbc, s5) == (dbc, ReplyView::Done));
            let s6 = step(s5, ReplyView::Done).0;
            assert(run(s5, r5, dbc, f5) == run(s6, RequestView::Finish { success: true }, dbc, (f5 - 1) as nat));
        } else {
            assert(s5.stage == Stage::InsertJunction);
            let (db5, rep5) = link(dbc, pid, cid);
            assert(answer(dbc, s5) == (db5, rep5));
            let (s6, r6) = step(s5, rep5);
            assert(run(s5, r5, dbc, f5) == run(s6, r6, db5, (f5 - 1) as nat));
            if rep5 is RowId {
                let j = new_id(junction_ids(dbc.junctions));
                assert(db5.junctions == dbc.junctions.push((j, pid, cid)));
                assert(db5.colors == dbc.colors);
                lemma_links_between_push(dbc.junctions, (j, pid, cid), pid, cid);
                assert(s6.stage == Stage::Commit);
                assert(answer(db5, s6) == (db5, ReplyView::Done));
                let s7 = step(s6, ReplyView::Done).0;
                assert(run(s6, r6, db5, (f5 - 1) as nat) == run(s7, RequestView::Finish { success: true }, db5, (f5 - 2) as nat));
            } else {
                assert(r6 == RequestView::Finish { success: false });
            }
        }
    }
}

/// Linking a colour to a palette a second time, right after it succeeded,
/// succeeds again and changes nothing: no second colour and no second link.
pub proof fn add_color_to_palette_twice(pid: i64, c: ColorSpecView, db0: Tables, db1: Tables)
    requires
        performs(add_color_to_palette_session(pid, c), db0, db1, true),
    ensures
        performs(add_color_to_palette_session(pid, c), db1, db1, true),
{
    let f = choose|f: nat| outcome(add_color_to_palette_session(pid, c), db0, f) == Some((db1, true));
    lemma_add_color_result(pid, c, db0, f, db1);
    lemma_add_color_again(pid, c, db1);
    assert(outcome(add_color_to_palette_session(pid, c), db1, 4) == Some((db1, true)));
}

/// The tables after pruning table `t` from the `i`th candidate on: each
/// candidate that no link names is deleted.
pub open spec fn prune_rest(db: Tables, t: Table, cands: Seq<i64>, i: int) -> Tables
    decreases cands.len() - i,
{
    if i < 0 || i >= cands.len() {
        db
    } else if links_of(db.junctions, t, cands[i]).len() == 0 {
        prune_rest(without_row(db, t, cands[i]), t, cands, i + 1)
    } else {
        prune_rest(db, t, cands, i + 1)
    }
}

/// The replies that pruning from the `i`th candidate takes.
pub open spec fn prune_steps(db: Tables, t: Table, cands: Seq<i64>, i: int) -> nat
    decreases cands.len() - i,
{
    if i < 0 || i >= cands.len() {
        0
    } else if links_of(db.junctions, t, cands[i]).len() == 0 {
        2 + prune_steps(without_row(db, t, cands[i]), t, cands, i + 1)
    } else {
        1 + prune_steps(db, t, cands, i + 1)
    }
}

/// Pruning carries a session from its `i`th candidate to its next task,
/// deleting exactly the candidates that no link names.
proof fn lemma_prune_run(s: SessionView, db: Tables, i: int, f: nat)
    requires
        0 <= s.next < s.tasks.len(),
        s.tasks[s.next] is Prune,
        0 <= i <= s.candidates.len() <= usize::MAX,
        f >= prune_steps(db, current_table(s), s.candidates, i),
    ensures
        run(prune_from(s, i).0, prune_from(s, i).1, db, f) == run(
            launch(task_done(s)).0,
            launch(task_done(s)).1,
            prune_rest(db, current_table(s), s.candidates, i),
            (f - prune_steps(db, current_table(s), s.candidates, i)) as nat,
        ),
    decreases s.candidates.len() - i,
{
    let t = current_table(s);
    if i < s.candidates.len() {
        let (sp, rp) = prune_from(s, i);
        let id = s.candidates[i];
        let l = links_of(db.junctions, t, id);
        assert(current_table(sp) == t);
        assert(answer(db, sp) == (db, ReplyView::Ids(l)));
        let (s2, r2) = step(sp, ReplyView::Ids(l));
        assert(run(sp, rp, db, f) == run(s2, r2, db, (f - 1) as nat));
        if l.len() == 0 {
            assert(s2.stage == Stage::PruneDelete(i as usize));
            assert(current_table(s2) == t);
            let db2 = without_row(db, t, id);
            assert(answer(db, s2) == (db2, ReplyView::Done));
            let (s3, r3) = step(s2, ReplyView::Done);
            assert((s3, r3) == prune_from(s, i + 1));
            assert(run(s2, r2, db, (f - 1) as nat) == run(s3, r3, db2, (f - 2) as nat));
            lemma_prune_run(s, db2, i + 1, (f - 2) as nat);
        } else {
            assert(step(sp, ReplyView::Ids(l)) == prune_from(s, i + 1));
            lemma_prune_run(s, db, i + 1, (f - 1) as nat);
        }
    }
}

proof fn lemma_drop_links_twice(rows: Seq<(i64, i64, i64)>, d: spec_fn((i64, i64, i64)) -> bool)
    ensures
        drop_links(drop_links(rows, d), d) == drop_links(rows, d),
    decreases rows.len(),
{
    if rows.len() > 0 {
        let rest = drop_links(rows.drop_last(), d);
        lemma_drop_links_twice(rows.drop_last(), d);
        if !d(rows.last()) {
            assert(rest.push(rows.last()).drop_last() =~= rest);
        }
    }
}

proof fn lemma_drop_palette_twice(rows: Seq<(i64, Seq<char>)>, id: i64)
    ensures
        drop_palette(drop_palette(rows, id), id) == drop_palette(rows, id),
    decreases rows.len(),
{
    if rows.len() > 0 {
        let rest = drop_palette(rows.drop_last(), id);
        lemma_drop_palette_twice(rows.drop_last(), id);
        if rows.last().0 != id {
            assert(rest.push(rows.last()).drop_last() =~= rest);
        }
    }
}

/// Once the links that `d` picks are gone, none is left that names a row
/// whose every link `d` picks.
proof fn lemma_dropped_links_gone(
    rows: Seq<(i64, i64, i64)>,
    d: spec_fn((i64, i64, i64)) -> bool,
    t: Table,
    id: i64,
)
    requires
        forall|r: (i64, i64, i64)| names(r, t, id) ==> d(r),
    ensures
        links_of(drop_links(rows, d), t, id).len() == 0,
    decreases rows.len(),
{
    if rows.len() > 0 {
        let rest = drop_links(rows.drop_last(), d);
        lemma_dropped_links_gone(rows.drop_last(), d, t, id);
        if !d(rows.last()) {
            assert(rest.push(rows.last()).drop_last() =~= rest);
        }
    }
}

proof fn lemma_drop_color_subset(rows: Seq<(i64, ColorSpecView)>, id: i64)
    ensures
        drop_color(rows, id).len() <= rows.len(),
        forall|r: (i64, ColorSpecView)| #[trigger] drop_color(rows, id).contains(r) ==> rows.contains(r) && r.0 != id,
    decreases rows.len(),
{
    if rows.len() > 0 {
        let rest = drop_color(rows.drop_last(), id);
        lemma_drop_color_subset(rows.drop_last(), id);
        assert forall|r: (i64, ColorSpecView)| drop_color(rows, id).contains(r) implies rows.contains(r) && r.0 != id by {
            if rows.last().0 != id {
                let k = choose|k: int| 0 <= k < drop_color(rows, id).len() && drop_color(rows, id)[k] == r;
                if k < rest.len() {
                    assert(rest[k] == r);
                    assert(rest.contains(r));
                    assert(rows.drop_last().contains(r));
                    let m = choose|m: int| 0 <= m < rows.drop_last().len() && rows.drop_last()[m] == r;
                    assert(rows[m] == r);
                } else {
                    assert(rows[rows.len() - 1] == r);
                }
            } else {
                assert(rest.contains(r));
                assert(rows.drop_last().contains(r));
                let m = choose|m: int| 0 <= m < rows.drop_last().len() && rows.drop_last()[m] == r;
                assert(rows[m] == r);
            }
        }
    }
}

/// Pruning the colours changes neither the palettes nor the links, and
/// leaves no more colours than there were.
proof fn lemma_prune_colors_frame(db: Tables, cands: Seq<i64>, i: int)
    ensures
        prune_rest(db, Table::Colors, cands, i).palettes == db.palettes,
        prune_rest(db, Table::Colors, cands, i).junctions == db.junctions,
        prune_rest(db, Table::Colors, cands, i).colors.len() <= db.colors.len(),
    decreases cands.len() - i,
{
    if 0 <= i < cands.len() {
        if links_of(db.junctions, Table::Colors, cands[i]).len() == 0 {
            lemma_drop_color_subset(db.colors, cands[i]);
            lemma_prune_colors_frame(without_row(db, Table::Colors, cands[i]), cands, i + 1);
        } else {
            lemma_prune_colors_frame(db, cands, i + 1);
        }
    }
}

/// Each colour that pruning leaves was there before, and is linked if it
/// was among the candidates checked.
proof fn lemma_pruned_colors_linked(db: Tables, cands: Seq<i64>, i: int, r: (i64, ColorSpecView))
    requires
        0 <= i,
        prune_rest(db, Table::Colors, cands, i).colors.contains(r),
    ensures
        db.colors.contains(r),
        forall|k: int| i <= k < cands.len() && cands[k] == r.0 ==> links_of(db.junctions, Table::Colors, r.0).len() > 0,
    decreases cands.len() - i,
{
    if i < cands.len() {
        if links_of(db.junctions, Table::Colors, cands[i]).len() == 0 {
            let db2 = without_row(db, Table::Colors, cands[i]);
            lemma_pruned_colors_linked(db2, cands, i + 1, r);
            lemma_drop_color_subset(db.colors, cands[i]);
            assert(db2.colors == drop_color(db.colors, cands[i]));
            assert(db2.colors.contains(r));
            assert(r.0 != cands[i]);
        } else {
            lemma_pruned_colors_linked(db, cands, i + 1, r);
        }
    }
}

/// Pruning deletes nothing where every candidate is linked.
proof fn lemma_prune_nothing(db: Tables, t: Table, cands: Seq<i64>, i: int)
    requires
        0 <= i,
        forall|k: int| i <= k < cands.len() ==> links_of(db.junctions, t, cands[k]).len() > 0,
    ensures
        prune_rest(db, t, cands, i) == db,
    decreases cands.len() - i,
{
    if i < cands.len() {
        lemma_prune_nothing(db, t, cands, i + 1);
    }
}

/// The tables after a palette's links and the palette itself are deleted.
spec fn palette_removed(db: Tables, pid: i64) -> Tables {
    let unlinked = execute(db, StatementView::UnlinkPalette { palette_id: pid }).0;
    execute(unlinked, StatementView::DeletePalette { palette_id: pid }).0
}

/// The tables after deleting a palette: its links and the palette go, and
/// then each colour that is linked to no palette.
spec fn palette_deleted(db: Tables, pid: i64) -> Tables {
    let removed = palette_removed(db, pid);
    prune_rest(removed, Table::Colors, color_ids(removed.colors), 0)
}

/// Deleting a palette always succeeds, leaving `palette_deleted`.
proof fn lemma_delete_palette_run(pid: i64, db: Tables, g: nat)
    requires
        db.colors.len() <= usize::MAX,
        g >= 5 + prune_steps(
            palette_removed(db, pid),
            Table::Colors,
            color_ids(palette_removed(db, pid).colors),
            0,
        ),
    ensures
        outcome(delete_palette_session(pid), db, g) == Some((palette_deleted(db, pid), true)),
{
    let s0 = delete_palette_session(pid);
    let (s1, r1) = step(s0, ReplyView::Done);
    assert(s1.stage == Stage::Begin && s1.next == 0);
    assert(answer(db, s1) == (db, ReplyView::Done));
    let (s2, r2) = step(s1, ReplyView::Done);
    assert(s2.stage == Stage::Execute && s2.next == 1);
    assert(run(s1, r1, db, g) == run(s2, r2, db, (g - 1) as nat));
    let da = execute(db, StatementView::UnlinkPalette { palette_id: pid }).0;
    assert(answer(db, s2) == (da, ReplyView::Done));
    let (s3, r3) = step(s2, ReplyView::Done);
    assert(s3.stage == Stage::Execute && s3.next == 2);
    assert(run(s2, r2, db, (g - 1) as nat) == run(s3, r3, da, (g - 2) as nat));
    lemma_dropped_links_gone(db.junctions, |r: (i64, i64, i64)| r.1 == pid, Table::Palettes, pid);
    let dbb = palette_removed(db, pid);
    assert(dbb.colors == db.colors);
    assert(answer(da, s3) == (dbb, ReplyView::Done));
    let (s4, r4) = step(s3, ReplyView::Done);
    assert(s4.stage == Stage::PruneList && s4.next == 3);
    assert(run(s3, r3, da, (g - 2) as nat) == run(s4, r4, dbb, (g - 3) as nat));
    let cands = color_ids(dbb.colors);
    assert(current_table(s4) == Table::Colors);
    assert(answer(dbb, s4) == (dbb, ReplyView::Ids(cands)));
    let s5 = SessionView { candidates: cands, ..s4 };
    assert(step(s4, ReplyView::Ids(cands)) == prune_from(s5, 0));
    assert(run(s4, r4, dbb, (g - 3) as nat) == run(prune_from(s5, 0).0, prune_from(s5, 0).1, dbb, (g - 4) as nat));
    let ps = prune_steps(dbb, Table::Colors, cands, 0);
    lemma_prune_run(s5, dbb, 0, (g - 4) as nat);
    let db1 = palette_deleted(db, pid);
    let (s6, r6) = launch(task_done(s5));
    assert(s6.stage == Stage::Commit && r6 == RequestView::Commit);
    assert(answer(db1, s6) == (db1, ReplyView::Done));
    let s7 = step(s6, ReplyView::Done).0;
    assert(step(s6, ReplyView::Done).1 == (RequestView::Finish { success: true }));
    assert(run(s6, r6, db1, (g - 4 - ps) as nat) == run(s7, RequestView::Finish { success: true }, db1, (g - 5 - ps) as nat));
}

/// Deleting a palette twice leaves the tables as deleting it once does:
/// the second deletion succeeds too, and changes nothing.
pub proof fn delete_palette_twice(pid: i64, db0: Tables, db1: Tables)
    requires
        db0.colors.len() <= usize::MAX,
        performs(delete_palette_session(pid), db0, db1, true),
    ensures
        performs(delete_palette_session(pid), db1, db1, true),
{
    let session = delete_palette_session(pid);
    let f = choose|f: nat| outcome(session, db0, f) == Some((db1, true));
    let removed = palette_removed(db0, pid);
    let n = 5 + prune_steps(removed, Table::Colors, color_ids(removed.colors), 0);
    let g: nat = if f < n { n } else { f };
    lemma_delete_palette_run(pid, db0, g);
    let (s1, r1) = step(session, ReplyView::Done);
    lemma_run_fuel(s1, r1, db0, f, g);
    assert(db1 == palette_deleted(db0, pid));
    // db1 has no link to the palette, nor the palette itself, and each of
    // its colours is linked.
    lemma_prune_colors_frame(removed, color_ids(removed.colors), 0);
    let d = |r: (i64, i64, i64)| r.1 == pid;
    lemma_drop_links_twice(db0.junctions, d);
    lemma_drop_palette_twice(db0.palettes, pid);
    let again = palette_removed(db1, pid);
    assert(again == db1);
    let cands = color_ids(db1.colors);
    assert forall|k: int| 0 <= k < cands.len() implies links_of(db1.junctions, Table::Colors, cands[k]).len() > 0 by {
        let r = db1.colors[k];
        assert(db1.colors.contains(r));
        lemma_pruned_colors_linked(removed, color_ids(removed.colors), 0, r);
        let m = choose|m: int| 0 <= m < removed.colors.len() && removed.colors[m] == r;
        assert(color_ids(removed.colors)[m] == r.0);
    }
    lemma_prune_nothing(db1, Table::Colors, cands, 0);
    lemma_delete_palette_run(pid, db1, 5 + prune_steps(db1, Table::Colors, cands, 0));
}

/// Every link names a palette and a colour that exist.
pub open spec fn links_exist(db: Tables) -> bool {
    forall|k: int|
        #![trigger db.junctions[k]]
        0 <= k < db.junctions.len() ==> palette_ids(db.palettes).contains(db.junctions[k].1)
            && color_ids(db.colors).contains(db.junctions[k].2)
}

/// Every colour and every palette is named by some link.
pub open spec fn rows_linked(db: Tables) -> bool {
    &&& forall|k: int|
        0 <= k < db.colors.len() ==> links_of(db.junctions, Table::Colors, #[trigger] db.colors[k].0).len() > 0
    &&& forall|k: int|
        0 <= k < db.palettes.len() ==> links_of(db.junctions, Table::Palettes, #[trigger] db.palettes[k].0).len()
            > 0
}

proof fn lemma_max_id(ids: Seq<i64>)
    ensures
        forall|k: int| 0 <= k < ids.len() ==> ids[k] <= max_id(ids),
        max_id(ids) == 0 || ids.contains(max_id(ids) as i64),
        i64::MIN <= max_id(ids) <= i64::MAX,
    decreases ids.len(),
{
    if ids.len() > 0 {
        lemma_max_id(ids.drop_last());
        assert forall|k: int| 0 <= k < ids.len() implies ids[k] <= max_id(ids) by {
            if k < ids.len() - 1 {
                assert(ids[k] == ids.drop_last()[k]);
            }
        }
        if max_id(ids) != 0 && max_id(ids) != ids.last() {
            let m = choose|m: int| 0 <= m < ids.drop_last().len() && ids.drop_last()[m] == max_id(ids.drop_last()) as i64;
            assert(ids[m] == max_id(ids) as i64);
        } else if max_id(ids) != 0 {
            assert(ids[ids.len() - 1] == max_id(ids) as i64);
        }
    }
}

/// Below the largest possible id, a new id differs from every id there is.
proof fn lemma_new_id_fresh(ids: Seq<i64>)
    requires
        forall|k: int| 0 <= k < ids.len() ==> ids[k] < i64::MAX,
    ensures
        !ids.contains(new_id(ids)),
        new_id(ids) == max_id(ids) + 1,
{
    lemma_max_id(ids);
    if max_id(ids) != 0 {
        let m = choose|m: int| 0 <= m < ids.len() && ids[m] == max_id(ids) as i64;
        assert(ids[m] < i64::MAX);
    }
}

proof fn lemma_no_links_between(rows: Seq<(i64, i64, i64)>, pid: i64, cid: i64)
    requires
        forall|k: int| 0 <= k < rows.len() ==> rows[k].2 != cid,
    ensures
        links_between(rows, pid, cid).len() == 0,
    decreases rows.len(),
{
    if rows.len() > 0 {
        lemma_no_links_between(rows.drop_last(), pid, cid);
    }
}

proof fn lemma_no_links_of(rows: Seq<(i64, i64, i64)>, t: Table, id: i64)
    requires
        forall|k: int| 0 <= k < rows.len() ==> !names(rows[k], t, id),
    ensures
        links_of(rows, t, id).len() == 0,
    decreases rows.len(),
{
    if rows.len() > 0 {
        lemma_no_links_of(rows.drop_last(), t, id);
    }
}

proof fn lemma_drop_links_none(rows: Seq<(i64, i64, i64)>, d: spec_fn((i64, i64, i64)) -> bool)
    requires
        forall|k: int| 0 <= k < rows.len() ==> !d(rows[k]),
    ensures
        drop_links(rows, d) == rows,
    decreases rows.len(),
{
    if rows.len() > 0 {
        lemma_drop_links_none(rows.drop_last(), d);
        assert(rows.drop_last().push(rows.last()) =~= rows);
    }
}

proof fn lemma_drop_color_none(rows: Seq<(i64, ColorSpecView)>, id: i64)
    requires
        forall|k: int| 0 <= k < rows.len() ==> rows[k].0 != id,
    ensures
        drop_color(rows, id) == rows,
    decreases rows.len(),
{
    if rows.len() > 0 {
        lemma_drop_color_none(rows.drop_last(), id);
        assert(rows.drop_last().push(rows.last()) =~= rows);
    }
}

/// Pruning deletes only the last candidate where it alone is unlinked.
proof fn lemma_prune_only_last(db: Tables, t: Table, cands: Seq<i64>, i: int)
    requires
        0 <= i < cands.len(),
        forall|k: int| i <= k < cands.len() - 1 ==> links_of(db.junctions, t, cands[k]).len() > 0,
        links_of(db.junctions, t, cands.last()).len() == 0,
    ensures
        prune_rest(db, t, cands, i) == without_row(db, t, cands.last()),
    decreases cands.len() - i,
{
    if i < cands.len() - 1 {
        lemma_prune_only_last(db, t, cands, i + 1);
    } else {
        assert(prune_rest(without_row(db, t, cands.last()), t, cands, i + 1) == without_row(db, t, cands.last()));
    }
}

/// The tables after a new colour is added and linked to a palette.
spec fn color_added(db: Tables, pid: i64, c: ColorSpecView) -> Tables {
    let cid = new_id(color_ids(db.colors));
    Tables {
        colors: db.colors.push((cid, c)),
        palettes: db.palettes,
        junctions: db.junctions.push((new_id(junction_ids(db.junctions)), pid, cid)),
    }
}

/// Adding a colour that the tables lack to an existing palette succeeds,
/// inserting the colour and one link.
proof fn lemma_add_new_color_run(pid: i64, c: ColorSpecView, db: Tables, g: nat)
    requires
        links_exist(db),
        palette_ids(db.palettes).contains(pid),
        matching_colors(db.colors, c).len() == 0,
        !color_ids(db.colors).contains(new_id(color_ids(db.colors))),
        g >= 6,
    ensures
        outcome(add_color_to_palette_session(pid, c), db, g) == Some((color_added(db, pid, c), true)),
{
    let s0 = add_color_to_palette_session(pid, c);
    let (s1, r1) = step(s0, ReplyView::Done);
    assert(s1.stage == Stage::Begin);
    assert(answer(db, s1) == (db, ReplyView::Done));
    let (s2, r2) = step(s1, ReplyView::Done);
    assert(s2.stage == Stage::FindColor && s2.next == 1);
    assert(run(s1, r1, db, g) == run(s2, r2, db, (g - 1) as nat));
    let m = matching_colors(db.colors, c);
    assert(answer(db, s2) == (db, ReplyView::Ids(m)));
    let (s3, r3) = step(s2, ReplyView::Ids(m));
    assert(s3.stage == Stage::InsertColor);
    assert(run(s2, r2, db, (g - 1) as nat) == run(s3, r3, db, (g - 2) as nat));
    let cid = new_id(color_ids(db.colors));
    let dbc = Tables { colors: db.colors.push((cid, c)), ..db };
    assert(answer(db, s3) == (dbc, ReplyView::RowId(cid)));
    let (s4, r4) = step(s3, ReplyView::RowId(cid));
    assert(s4.stage == Stage::FindJunction && s4.color_id == Some(cid) && s4.palette_id == pid);
    assert(run(s3, r3, db, (g - 2) as nat) == run(s4, r4, dbc, (g - 3) as nat));
    assert forall|k: int| 0 <= k < db.junctions.len() implies db.junctions[k].2 != cid by {
        assert(color_ids(db.colors).contains(db.junctions[k].2));
    }
    lemma_no_links_between(db.junctions, pid, cid);
    let l = links_between(dbc.junctions, pid, cid);
    assert(answer(dbc, s4) == (dbc, ReplyView::Ids(l)));
    let (s5, r5) = step(s4, ReplyView::Ids(l));
    assert(s5.stage == Stage::InsertJunction);
    assert(run(s4, r4, dbc, (g - 3) as nat) == run(s5, r5, dbc, (g - 4) as nat));
    lemma_color_ids_push(db.colors, (cid, c));
    let db1 = color_added(db, pid, c);
    assert(link(dbc, pid, cid) == (db1, ReplyView::RowId(new_id(junction_ids(db.junctions)))));
    assert(answer(dbc, s5) == link(dbc, pid, cid));
    let (s6, r6) = step(s5, ReplyView::RowId(new_id(junction_ids(db.junctions))));
    assert(s6.stage == Stage::Commit);
    assert(run(s5, r5, dbc, (g - 4) as nat) == run(s6, r6, db1, (g - 5) as nat));
    assert(answer(db1, s6) == (db1, ReplyView::Done));
    let s7 = step(s6, ReplyView::Done).0;
    assert(run(s6, r6, db1, (g - 5) as nat) == run(s7, RequestView::Finish { success: true }, db1, (g - 6) as nat));
}

/// Adding a new colour to a palette and then removing it from the palette
/// gives back the tables as they were, where every link names rows that
/// exist and every row is linked: the removal succeeds and deletes the
/// colour and its link.
#[verifier::rlimit(40)]
pub proof fn add_then_remove_restores(pid: i64, c: ColorSpecView, db0: Tables, db1: Tables)
    requires
        links_exist(db0),
        rows_linked(db0),
        palette_ids(db0.palettes).contains(pid),
        matching_colors(db0.colors, c).len() == 0,
        forall|k: int| 0 <= k < db0.colors.len() ==> db0.colors[k].0 < i64::MAX,
        db0.colors.len() < usize::MAX,
        db0.palettes.len() <= usize::MAX,
        performs(add_color_to_palette_session(pid, c), db0, db1, true),
    ensures
        performs(
            remove_color_from_palette_session(new_id(color_ids(db0.colors)), pid),
            db1,
            db0,
            true,
        ),
{
    let ids = color_ids(db0.colors);
    let cid = new_id(ids);
    lemma_new_id_fresh(ids);
    let add = add_color_to_palette_session(pid, c);
    let f = choose|f: nat| outcome(add, db0, f) == Some((db1, true));
    let g: nat = if f < 6 { 6 } else { f };
    lemma_add_new_color_run(pid, c, db0, g);
    let (a1, q1) = step(add, ReplyView::Done);
    lemma_run_fuel(a1, q1, db0, f, g);
    assert(db1 == color_added(db0, pid, c));
    let jid = new_id(junction_ids(db0.junctions));
    assert forall|k: int| 0 <= k < db0.junctions.len() implies db0.junctions[k].2 != cid by {
        assert(color_ids(db0.colors).contains(db0.junctions[k].2));
    }
    // Unlinking.
    let s0 = remove_color_from_palette_session(cid, pid);
    let (s1, r1) = step(s0, ReplyView::Done);
    assert(s1.stage == Stage::Begin && s1.next == 0);
    assert(answer(db1, s1) == (db1, ReplyView::Done));
    let (s2, r2) = step(s1, ReplyView::Done);
    assert(s2.stage == Stage::Execute && s2.next == 1);
    let d = |r: (i64, i64, i64)| r.1 == pid && r.2 == cid;
    lemma_drop_links_none(db0.junctions, d);
    assert(db1.junctions.drop_last() =~= db0.junctions);
    let db2 = Tables { junctions: db0.junctions, ..db1 };
    assert(answer(db1, s2) == (db2, ReplyView::Done));
    let (s3, r3) = step(s2, ReplyView::Done);
    assert(s3.stage == Stage::PruneList && s3.next == 2);
    // Pruning the colours deletes the new one alone.
    let cands = color_ids(db2.colors);
    lemma_color_ids_push(db0.colors, (cid, c));
    assert(current_table(s3) == Table::Colors);
    assert(answer(db2, s3) == (db2, ReplyView::Ids(cands)));
    let s4 = SessionView { candidates: cands, ..s3 };
    assert(step(s3, ReplyView::Ids(cands)) == prune_from(s4, 0));
    assert forall|k: int| 0 <= k < cands.len() - 1 implies links_of(db2.junctions, Table::Colors, cands[k]).len() > 0 by {
        assert(cands[k] == db0.colors[k].0);
    }
    lemma_no_links_of(db0.junctions, Table::Colors, cid);
    lemma_prune_only_last(db2, Table::Colors, cands, 0);
    lemma_drop_color_none(db0.colors, cid);
    assert(db2.colors.drop_last() =~= db0.colors);
    assert(prune_rest(db2, Table::Colors, cands, 0) == db0);
    let ps1 = prune_steps(db2, Table::Colors, cands, 0);
    let (s5, r5) = launch(task_done(s4));
    assert(s5.stage == Stage::PruneList && s5.next == 3);
    // Pruning the palettes deletes none.
    let pcands = palette_ids(db0.palettes);
    assert(current_table(s5) == Table::Palettes);
    assert(answer(db0, s5) == (db0, ReplyView::Ids(pcands)));
    let s6 = SessionView { candidates: pcands, ..s5 };
    assert(step(s5, ReplyView::Ids(pcands)) == prune_from(s6, 0));
    assert forall|k: int| 0 <= k < pcands.len() implies links_of(db0.junctions, Table::Palettes, pcands[k]).len() > 0 by {
        assert(pcands[k] == db0.palettes[k].0);
    }
    lemma_prune_nothing(db0, Table::Palettes, pcands, 0);
    let ps2 = prune_steps(db0, Table::Palettes, pcands, 0);
    let (s7, r7) = launch(task_done(s6));
    assert(s7.stage == Stage::Commit && r7 == RequestView::Commit);
    assert(answer(db0, s7) == (db0, ReplyView::Done));
    let s8 = step(s7, ReplyView::Done).0;
    assert(step(s7, ReplyView::Done).1 == (RequestView::Finish { success: true }));
    // The whole run, with just enough replies.
    let n = 5 + ps1 + ps2;
    lemma_prune_run(s6, db0, 0, (ps2 + 1) as nat);
    assert(run(s7, r7, db0, 1) == run(s8, RequestView::Finish { success: true }, db0, 0));
    assert(run(s5, r5, db0, (ps2 + 2) as nat) == Some((db0, true)));
    lemma_prune_run(s4, db2, 0, (ps1 + ps2 + 2) as nat);
    assert(run(s3, r3, db2, (ps1 + ps2 + 3) as nat) == Some((db0, true)));
    assert(run(s2, r2, db1, (ps1 + ps2 + 4) as nat) == Some((db0, true)));
    assert(run(s1, r1, db1, n) == Some((db0, true)));
    assert(outcome(s0, db1, n) == Some((db0, true)));
}

/// Some link joins palette `pid` to colour `cid`.
pub open spec fn has_link(rows: Seq<(i64, i64, i64)>, pid: i64, cid: i64) -> bool {
    exists|k: int| 0 <= k < rows.len() && (#[trigger] rows[k]).1 == pid && rows[k].2 == cid
}

/// `b` starts with the rows of `a`.
pub open spec fn grows<T>(a: Seq<T>, b: Seq<T>) -> bool {
    a.len() <= b.len() && forall|k: int| 0 <= k < a.len() ==> #[trigger] b[k] == a[k]
}

proof fn lemma_grows_push<T>(a: Seq<T>, x: T)
    ensures
        grows(a, a.push(x)),
{
}

proof fn lemma_grows_trans<T>(a: Seq<T>, b: Seq<T>, c: Seq<T>)
    requires
        grows(a, b),
        grows(b, c),
    ensures
        grows(a, c),
{
    assert forall|k: int| 0 <= k < a.len() implies #[trigger] c[k] == a[k] by {
        assert(b[k] == a[k]);
    }
}

proof fn lemma_has_link_grows(a: Seq<(i64, i64, i64)>, b: Seq<(i64, i64, i64)>, pid: i64, cid: i64)
    requires
        grows(a, b),
        has_link(a, pid, cid),
    ensures
        has_link(b, pid, cid),
{
    let k = choose|k: int| 0 <= k < a.len() && (#[trigger] a[k]).1 == pid && a[k].2 == cid;
    assert(b[k] == a[k]);
}

proof fn lemma_links_between_has_link(rows: Seq<(i64, i64, i64)>, pid: i64, cid: i64)
    ensures
        links_between(rows, pid, cid).len() > 0 ==> has_link(rows, pid, cid),
    decreases rows.len(),
{
    if rows.len() > 0 {
        lemma_links_between_has_link(rows.drop_last(), pid, cid);
        if links_between(rows.drop_last(), pid, cid).len() > 0 {
            let k = choose|k: int| 0 <= k < rows.drop_last().len() && (#[trigger] rows.drop_last()[k]).1 == pid
                && rows.drop_last()[k].2 == cid;
            assert(rows[k] == rows.drop_last()[k]);
        } else if links_between(rows, pid, cid).len() > 0 {
            assert(rows[rows.len() - 1] == rows.last());
        }
    }
}

/// Each colour of a palette comes from a link of that palette.
proof fn lemma_colors_of_palette_from(rows: Seq<(i64, i64, i64)>, pid: i64)
    ensures
        colors_of_palette(rows, pid).len() <= rows.len(),
        forall|k: int|
            0 <= k < colors_of_palette(rows, pid).len() ==> has_link(
                rows,
                pid,
                #[trigger] colors_of_palette(rows, pid)[k],
            ),
    decreases rows.len(),
{
    if rows.len() > 0 {
        let prefix = rows.drop_last();
        lemma_colors_of_palette_from(prefix, pid);
        let l = colors_of_palette(rows, pid);
        let lp = colors_of_palette(prefix, pid);
        assert forall|k: int| 0 <= k < l.len() implies has_link(rows, pid, #[trigger] l[k]) by {
            if k < lp.len() {
                assert(l[k] == lp[k]);
                assert(has_link(prefix, pid, lp[k]));
                let m = choose|m: int| 0 <= m < prefix.len() && (#[trigger] prefix[m]).1 == pid && prefix[m].2 == lp[k];
                assert(rows[m] == prefix[m]);
            } else {
                let m = rows.len() - 1;
                assert(rows[m] == rows.last());
                assert(rows[m].1 == pid && rows[m].2 == l[k]);
            }
        }
    }
}

proof fn lemma_palette_ids_push(rows: Seq<(i64, Seq<char>)>, r: (i64, Seq<char>))
    ensures
        palette_ids(rows.push(r)).contains(r.0),
{
    assert(palette_ids(rows.push(r))[rows.len() as int] == r.0);
}

/// Copying links from the `i`th loaded colour on: once the run commits,
/// the new palette is linked to each of those colours, and only links
/// were added.
proof fn lemma_copy_run(s: SessionView, db: Tables, i: int, f: nat, db1: Tables)
    requires
        0 <= s.next,
        s.next + 2 == s.tasks.len(),
        s.tasks[s.next] is CopyJunctions,
        s.tasks[s.next + 1] is Commit,
        0 <= i <= s.loaded.len() <= usize::MAX,
        palette_ids(db.palettes).contains(s.palette_id),
        forall|k: int| i <= k < s.loaded.len() ==> color_ids(db.colors).contains(#[trigger] s.loaded[k]),
        run(copy_from(s, i).0, copy_from(s, i).1, db, f) == Some((db1, true)),
    ensures
        db1.colors == db.colors,
        db1.palettes == db.palettes,
        grows(db.junctions, db1.junctions),
        forall|k: int| i <= k < s.loaded.len() ==> has_link(db1.junctions, s.palette_id, #[trigger] s.loaded[k]),
    decreases s.loaded.len() - i,
{
    let pid = s.palette_id;
    if i == s.loaded.len() {
        let (sc, rc) = launch(task_done(s));
        assert(sc.stage == Stage::Commit && rc == RequestView::Commit);
        assert(copy_from(s, i) == (sc, rc));
        if f == 0 {
            assert(run(sc, rc, db, f) is None);
        }
        assert(answer(db, sc) == (db, ReplyView::Done));
        let sf = step(sc, ReplyView::Done).0;
        assert(step(sc, ReplyView::Done).1 == (RequestView::Finish { success: true }));
        assert(run(sc, rc, db, f) == run(sf, RequestView::Finish { success: true }, db, (f - 1) as nat));
        assert(db1 == db);
    } else {
        let x = s.loaded[i];
        let (sa, ra) = copy_from(s, i);
        assert(sa.stage == Stage::CopyFind(i as usize));
        if f == 0 {
            assert(run(sa, ra, db, f) is None);
        }
        let lb = links_between(db.junctions, pid, x);
        assert(answer(db, sa) == (db, ReplyView::Ids(lb)));
        let (sb, rb) = step(sa, ReplyView::Ids(lb));
        assert(run(sa, ra, db, f) == run(sb, rb, db, (f - 1) as nat));
        assert(copy_from(sa, i + 1) == copy_from(s, i + 1));
        lemma_links_between_has_link(db.junctions, pid, x);
        if lb.len() == 0 {
            assert(sb.stage == Stage::CopyInsert(i as usize));
            if f == 1 {
                assert(run(sb, rb, db, 0) is None);
            }
            assert(color_ids(db.colors).contains(x));
            let j = new_id(junction_ids(db.junctions));
            let db2 = Tables { junctions: db.junctions.push((j, pid, x)), ..db };
            assert(answer(db, sb) == (db2, ReplyView::RowId(j)));
            assert(step(sb, ReplyView::RowId(j)) == copy_from(s, i + 1));
            assert(run(sb, rb, db, (f - 1) as nat) == run(copy_from(s, i + 1).0, copy_from(s, i + 1).1, db2, (f - 2) as nat));
            lemma_copy_run(s, db2, i + 1, (f - 2) as nat, db1);
            lemma_grows_push(db.junctions, (j, pid, x));
            lemma_grows_trans(db.junctions, db2.junctions, db1.junctions);
            assert(db2.junctions[db.junctions.len() as int] == (j, pid, x));
            assert(has_link(db2.junctions, pid, x));
            lemma_has_link_grows(db2.junctions, db1.junctions, pid, x);
        } else {
            assert(step(sa, ReplyView::Ids(lb)) == copy_from(s, i + 1));
            lemma_copy_run(s, db, i + 1, (f - 1) as nat, db1);
            lemma_has_link_grows(db.junctions, db1.junctions, pid, x);
        }
    }
}

/// Duplicating a palette, where every link names a colour that exists:
/// once it succeeds there is one new palette, under the next id and the
/// given name, linked to every colour of the original palette; no colour
/// is added and no link removed.
pub proof fn duplicate_links_every_color(pid: i64, name: Seq<char>, db0: Tables, db1: Tables)
    requires
        links_exist(db0),
        db0.junctions.len() <= usize::MAX,
        performs(duplicate_palette_session(pid, name), db0, db1, true),
    ensures
        db1.palettes == db0.palettes.push((new_id(palette_ids(db0.palettes)), name)),
        db1.colors == db0.colors,
        grows(db0.junctions, db1.junctions),
        forall|k: int|
            0 <= k < colors_of_palette(db0.junctions, pid).len() ==> has_link(
                db1.junctions,
                new_id(palette_ids(db0.palettes)),
                #[trigger] colors_of_palette(db0.junctions, pid)[k],
            ),
{
    let session = duplicate_palette_session(pid, name);
    let f = choose|f: nat| outcome(session, db0, f) == Some((db1, true));
    let (s1, r1) = step(session, ReplyView::Done);
    assert(s1.stage == Stage::LoadColors && s1.next == 0);
    let l = colors_of_palette(db0.junctions, pid);
    lemma_colors_of_palette_from(db0.junctions, pid);
    assert(answer(db0, s1) == (db0, ReplyView::Ids(l)));
    if f == 0 {
        assert(run(s1, r1, db0, f) is None);
    }
    let (s2, r2) = step(s1, ReplyView::Ids(l));
    assert(run(s1, r1, db0, f) == run(s2, r2, db0, (f - 1) as nat));
    if l.len() == 0 {
        assert(r2 == RequestView::Finish { success: false });
        assert(run(s2, r2, db0, (f - 1) as nat) == Some((db0, false)));
    } else {
        assert(s2.stage == Stage::Begin && s2.next == 1 && s2.loaded == l);
        if f == 1 {
            assert(run(s2, r2, db0, 0) is None);
        }
        assert(answer(db0, s2) == (db0, ReplyView::Done));
        let (s3, r3) = step(s2, ReplyView::Done);
        assert(s3.stage == Stage::NewPalette && s3.next == 2);
        assert(run(s2, r2, db0, (f - 1) as nat) == run(s3, r3, db0, (f - 2) as nat));
        if f == 2 {
            assert(run(s3, r3, db0, 0) is None);
        }
        let nid = new_id(palette_ids(db0.palettes));
        let dbp = Tables { palettes: db0.palettes.push((nid, name)), ..db0 };
        assert(answer(db0, s3) == (dbp, ReplyView::RowId(nid)));
        let (s4, r4) = step(s3, ReplyView::RowId(nid));
        let sc = task_done(SessionView { palette_id: nid, ..s3 });
        assert((s4, r4) == launch(sc));
        assert(sc.next == 3 && sc.loaded == l && sc.palette_id == nid);
        assert(launch(sc) == copy_from(sc, 0));
        assert(run(s3, r3, db0, (f - 2) as nat) == run(s4, r4, dbp, (f - 3) as nat));
        lemma_palette_ids_push(db0.palettes, (nid, name));
        assert forall|k: int| 0 <= k < l.len() implies color_ids(dbp.colors).contains(#[trigger] l[k]) by {
            assert(has_link(db0.junctions, pid, l[k]));
            let m = choose|m: int| 0 <= m < db0.junctions.len() && (#[trigger] db0.junctions[m]).1 == pid && db0.junctions[m].2 == l[k];
            assert(color_ids(db0.colors).contains(db0.junctions[m].2));
        }
        lemma_copy_run(sc, dbp, 0, (f - 3) as nat, db1);
    }
}

/// Palette `pid` is linked to a colour row with the values `c`.
pub open spec fn palette_has_color(db: Tables, pid: i64, c: ColorSpecView) -> bool {
    exists|x: i64| #[trigger] db.colors.contains((x, c)) && has_link(db.junctions, pid, x)
}

proof fn lemma_palette_has_color_grows(a: Tables, b: Tables, pid: i64, c: ColorSpecView)
    requires
        palette_has_color(a, pid, c),
        grows(a.colors, b.colors),
        grows(a.junctions, b.junctions),
    ensures
        palette_has_color(b, pid, c),
{
    let x = choose|x: i64| #[trigger] a.colors.contains((x, c)) && has_link(a.junctions, pid, x);
    let k = choose|k: int| 0 <= k < a.colors.len() && a.colors[k] == (x, c);
    assert(b.colors[k] == (x, c));
    assert(b.colors.contains((x, c)));
    lemma_has_link_grows(a.junctions, b.junctions, pid, x);
}

proof fn lemma_matching_colors_held(rows: Seq<(i64, ColorSpecView)>, c: ColorSpecView)
    ensures
        forall|k: int|
            0 <= k < matching_colors(rows, c).len() ==> rows.contains(
                (#[trigger] matching_colors(rows, c)[k], c),
            ),
    decreases rows.len(),
{
    if rows.len() > 0 {
        let prefix = rows.drop_last();
        lemma_matching_colors_held(prefix, c);
        let m = matching_colors(rows, c);
        let mp = matching_colors(prefix, c);
        assert forall|k: int| 0 <= k < m.len() implies rows.contains((#[trigger] m[k], c)) by {
            if k < mp.len() {
                assert(m[k] == mp[k]);
                assert(prefix.contains((mp[k], c)));
                let i = choose|i: int| 0 <= i < prefix.len() && prefix[i] == (mp[k], c);
                assert(rows[i] == prefix[i]);
            } else {
                assert(rows[rows.len() - 1] == rows.last());
            }
        }
    }
}

proof fn lemma_held_color_id(rows: Seq<(i64, ColorSpecView)>, x: i64, c: ColorSpecView)
    requires
        rows.contains((x, c)),
    ensures
        color_ids(rows).contains(x),
{
    let k = choose|k: int| 0 <= k < rows.len() && rows[k] == (x, c);
    assert(color_ids(rows)[k] == x);
}

proof fn lemma_extracted_tasks(cs: Seq<ExtractedColorView>)
    ensures
        extracted_color_tasks(cs).len() == 2 * cs.len(),
        forall|j: int|
            0 <= j < cs.len() ==> extracted_color_tasks(cs)[2 * j] == (TaskView::AddColor {
                color: extracted_spec(#[trigger] cs[j]),
                required: false,
            }) && extracted_color_tasks(cs)[2 * j + 1] == (TaskView::AddJunction { required: false }),
    decreases cs.len(),
{
    if cs.len() > 0 {
        let prefix = cs.drop_last();
        lemma_extracted_tasks(prefix);
        assert forall|j: int| 0 <= j < cs.len() implies extracted_color_tasks(cs)[2 * j] == (TaskView::AddColor {
            color: extracted_spec(#[trigger] cs[j]),
            required: false,
        }) && extracted_color_tasks(cs)[2 * j + 1] == (TaskView::AddJunction { required: false }) by {
            if j < prefix.len() {
                assert(prefix[j] == cs[j]);
            }
        }
    }
}


/// Finding or adding a colour: the run goes on with the next task, the
/// colour `x` found or inserted with the values `c`.
proof fn lemma_find_or_add_run(s: SessionView, c: ColorSpecView, db: Tables, f: nat, db1: Tables) -> (r: (
    i64,
    Tables,
    nat,
))
    requires
        0 <= s.next < s.tasks.len(),
        s.tasks[s.next] == (TaskView::AddColor { color: c, required: false }),
        run(launch(s).0, launch(s).1, db, f) == Some((db1, true)),
    ensures
        r.1.colors.contains((r.0, c)),
        grows(db.colors, r.1.colors),
        r.1.palettes == db.palettes,
        r.1.junctions == db.junctions,
        run(
            launch(SessionView { color_id: Some(r.0), next: s.next + 1, stage: Stage::Start, ..s }).0,
            launch(SessionView { color_id: Some(r.0), next: s.next + 1, stage: Stage::Start, ..s }).1,
            r.1,
            r.2,
        ) == Some((db1, true)),
{
    let (sa, ra) = launch(s);
    assert(sa.stage == Stage::FindColor && sa.next == s.next);
    if f == 0 {
        assert(run(sa, ra, db, f) is None);
    }
    let m = matching_colors(db.colors, c);
    assert(answer(db, sa) == (db, ReplyView::Ids(m)));
    let (sb, rb) = step(sa, ReplyView::Ids(m));
    assert(run(sa, ra, db, f) == run(sb, rb, db, (f - 1) as nat));
    lemma_matching_colors_held(db.colors, c);
    if m.len() > 0 {
        let x = m[0];
        assert(task_done(SessionView { color_id: Some(x), ..sa }) == SessionView {
            color_id: Some(x),
            next: s.next + 1,
            stage: Stage::Start,
            ..s
        });
        assert((sb, rb) == launch(task_done(SessionView { color_id: Some(x), ..sa })));
        assert(db.colors.contains((x, c)));
        (x, db, (f - 1) as nat)
    } else {
        assert(sb.stage == Stage::InsertColor);
        if f == 1 {
            assert(run(sb, rb, db, 0) is None);
        }
        let x = new_id(color_ids(db.colors));
        let db2 = Tables { colors: db.colors.push((x, c)), ..db };
        assert(answer(db, sb) == (db2, ReplyView::RowId(x)));
        let s2 = task_done(SessionView { color_id: Some(x), ..sa });
        assert(s2 == SessionView { color_id: Some(x), next: s.next + 1, stage: Stage::Start, ..s });
        assert(step(sb, ReplyView::RowId(x)) == launch(s2));
        assert(run(sb, rb, db, (f - 1) as nat) == run(launch(s2).0, launch(s2).1, db2, (f - 2) as nat));
        lemma_grows_push(db.colors, (x, c));
        assert(db2.colors[db.colors.len() as int] == (x, c));
        assert(db2.colors.contains((x, c)));
        (x, db2, (f - 2) as nat)
    }
}

/// Linking colour `x` to the session's palette, where both exist: the run
/// goes on with the next task, the link there.
proof fn lemma_link_run(s: SessionView, x: i64, db: Tables, f: nat, db1: Tables) -> (r: (Tables, nat))
    requires
        0 <= s.next < s.tasks.len(),
        s.tasks[s.next] is AddJunction,
        s.stage == Stage::Start,
        s.color_id == Some(x),
        color_ids(db.colors).contains(x),
        palette_ids(db.palettes).contains(s.palette_id),
        run(launch(s).0, launch(s).1, db, f) == Some((db1, true)),
    ensures
        has_link(r.0.junctions, s.palette_id, x),
        grows(db.junctions, r.0.junctions),
        r.0.colors == db.colors,
        r.0.palettes == db.palettes,
        run(launch(task_done(s)).0, launch(task_done(s)).1, r.0, r.1) == Some((db1, true)),
{
    let pid = s.palette_id;
    let (sd, rd) = launch(s);
    assert(sd.stage == Stage::FindJunction && sd.color_id == Some(x) && sd.palette_id == pid);
    assert(task_done(sd) == task_done(s));
    if f == 0 {
        assert(run(sd, rd, db, f) is None);
    }
    let lb = links_between(db.junctions, pid, x);
    assert(answer(db, sd) == (db, ReplyView::Ids(lb)));
    let (se, re) = step(sd, ReplyView::Ids(lb));
    assert(run(sd, rd, db, f) == run(se, re, db, (f - 1) as nat));
    lemma_links_between_has_link(db.junctions, pid, x);
    if lb.len() > 0 {
        assert((se, re) == launch(task_done(sd)));
        (db, (f - 1) as nat)
    } else {
        assert(se.stage == Stage::InsertJunction);
        if f == 1 {
            assert(run(se, re, db, 0) is None);
        }
        let jid = new_id(junction_ids(db.junctions));
        let db3 = Tables { junctions: db.junctions.push((jid, pid, x)), ..db };
        assert(answer(db, se) == (db3, ReplyView::RowId(jid)));
        assert(step(se, ReplyView::RowId(jid)) == launch(task_done(se)));
        assert(task_done(se) == task_done(s));
        assert(run(se, re, db, (f - 1) as nat) == run(launch(task_done(s)).0, launch(task_done(s)).1, db3, (f - 2) as nat));
        lemma_grows_push(db.junctions, (jid, pid, x));
        assert(db3.junctions[db.junctions.len() as int] == (jid, pid, x));
        (db3, (f - 2) as nat)
    }
}

/// Saving the extracted colours from the `j`th on: once the run commits,
/// the palette is linked to a colour with the values of each of them, and
/// nothing was removed.
proof fn lemma_extracted_run(
    name: Seq<char>,
    cs: Seq<ExtractedColorView>,
    s: SessionView,
    db: Tables,
    j: int,
    f: nat,
    db1: Tables,
)
    requires
        s.tasks == extracted_palette_session(name, cs).tasks,
        0 <= j <= cs.len(),
        s.next == 2 + 2 * j,
        palette_ids(db.palettes).contains(s.palette_id),
        run(launch(s).0, launch(s).1, db, f) == Some((db1, true)),
    ensures
        db1.palettes == db.palettes,
        grows(db.colors, db1.colors),
        grows(db.junctions, db1.junctions),
        forall|k: int| j <= k < cs.len() ==> palette_has_color(db1, s.palette_id, extracted_spec(#[trigger] cs[k])),
    decreases cs.len() - j,
{
    let pid = s.palette_id;
    let ext = extracted_color_tasks(cs);
    lemma_extracted_tasks(cs);
    let head = seq![TaskView::Begin, TaskView::NewPalette { name }];
    assert(s.tasks == head + ext + seq![TaskView::Commit]);
    assert(s.tasks.len() == 3 + 2 * cs.len());
    if j == cs.len() {
        assert(s.tasks[s.next] == TaskView::Commit);
        let (sc, rc) = launch(s);
        assert(sc.stage == Stage::Commit && rc == RequestView::Commit);
        if f == 0 {
            assert(run(sc, rc, db, f) is None);
        }
        assert(answer(db, sc) == (db, ReplyView::Done));
        let sf = step(sc, ReplyView::Done).0;
        assert(step(sc, ReplyView::Done).1 == (RequestView::Finish { success: true }));
        assert(run(sc, rc, db, f) == run(sf, RequestView::Finish { success: true }, db, (f - 1) as nat));
        assert(db1 == db);
    } else {
        let c = extracted_spec(cs[j]);
        assert(s.tasks[s.next] == ext[2 * j]);
        assert(s.tasks[s.next + 1] == ext[2 * j + 1]);
        assert(s.tasks[s.next] == (TaskView::AddColor { color: c, required: false }));
        assert(s.tasks[s.next + 1] == (TaskView::AddJunction { required: false }));
        let (x, db2, f2) = lemma_find_or_add_run(s, c, db, f, db1);
        let s2 = SessionView { color_id: Some(x), next: s.next + 1, stage: Stage::Start, ..s };
        lemma_held_color_id(db2.colors, x, c);
        let (db3, f3) = lemma_link_run(s2, x, db2, f2, db1);
        assert(db3.colors.contains((x, c)));
        assert(palette_has_color(db3, pid, c));
        let s3 = task_done(s2);
        assert(s3.next == 2 + 2 * (j + 1) && s3.palette_id == pid && s3.tasks == s.tasks);
        lemma_extracted_run(name, cs, s3, db3, j + 1, f3, db1);
        lemma_grows_trans(db.colors, db2.colors, db1.colors);
        assert(db3.colors == db2.colors);
        assert(db2.junctions == db.junctions);
        lemma_grows_trans(db.junctions, db3.junctions, db1.junctions);
        lemma_palette_has_color_grows(db3, db1, pid, c);
    }
}

/// Saving the colours extracted from an image as a new palette: once it
/// succeeds there is one new palette, under the next id and the given
/// name, linked to a colour with the values of every extracted colour;
/// nothing was removed.
pub proof fn extracted_colors_all_saved(name: Seq<char>, cs: Seq<ExtractedColorView>, db0: Tables, db1: Tables)
    requires
        performs(extracted_palette_session(name, cs), db0, db1, true),
    ensures
        db1.palettes == db0.palettes.push((new_id(palette_ids(db0.palettes)), name)),
        grows(db0.colors, db1.colors),
        grows(db0.junctions, db1.junctions),
        forall|k: int|
            0 <= k < cs.len() ==> palette_has_color(
                db1,
                new_id(palette_ids(db0.palettes)),
                extracted_spec(#[trigger] cs[k]),
            ),
{
    let session = extracted_palette_session(name, cs);
    let f = choose|f: nat| outcome(session, db0, f) == Some((db1, true));
    let (s1, r1) = step(session, ReplyView::Done);
    assert(s1.stage == Stage::Begin && s1.next == 0);
    if f == 0 {
        assert(run(s1, r1, db0, f) is None);
    }
    assert(answer(db0, s1) == (db0, ReplyView::Done));
    let (s2, r2) = step(s1, ReplyView::Done);
    assert(s2.stage == Stage::NewPalette && s2.next == 1);
    assert(run(s1, r1, db0, f) == run(s2, r2, db0, (f - 1) as nat));
    if f == 1 {
        assert(run(s2, r2, db0, 0) is None);
    }
    let nid = new_id(palette_ids(db0.palettes));
    let dbp = Tables { palettes: db0.palettes.push((nid, name)), ..db0 };
    assert(answer(db0, s2) == (dbp, ReplyView::RowId(nid)));
    let s3 = task_done(SessionView { palette_id: nid, ..s2 });
    assert(step(s2, ReplyView::RowId(nid)) == launch(s3));
    assert(run(s2, r2, db0, (f - 1) as nat) == run(launch(s3).0, launch(s3).1, dbp, (f - 2) as nat));
    lemma_palette_ids_push(db0.palettes, (nid, name));
    lemma_extracted_run(name, cs, s3, dbp, 0, (f - 2) as nat, db1);
}

/// Adding a colour to a palette: once it succeeds, the palette is linked
/// to a colour row with the caller's red, green, blue, alpha and hex name.
pub proof fn added_color_is_linked(
    pid: i64,
    hex: Seq<char>,
    rgba: (i64, i64, i64, Seq<char>),
    db0: Tables,
    db1: Tables,
)
    requires
        performs(add_color_to_palette_session(pid, rgba_spec(hex, rgba)), db0, db1, true),
    ensures
        palette_has_color(
            db1,
            pid,
            ColorSpecView { red: rgba.0, green: rgba.1, blue: rgba.2, alpha: rgba.3, hex },
        ),
{
    let c = rgba_spec(hex, rgba);
    let f = choose|f: nat| outcome(add_color_to_palette_session(pid, c), db0, f) == Some((db1, true));
    lemma_add_color_result(pid, c, db0, f, db1);
    let m = matching_colors(db1.colors, c);
    lemma_matching_colors_held(db1.colors, c);
    assert(db1.colors.contains((m[0], c)));
    lemma_links_between_has_link(db1.junctions, pid, m[0]);
    assert(c == ColorSpecView { red: rgba.0, green: rgba.1, blue: rgba.2, alpha: rgba.3, hex });
}

proof fn lemma_has_link_in_colors_of_palette(rows: Seq<(i64, i64, i64)>, pid: i64, cid: i64)
    requires
        has_link(rows, pid, cid),
    ensures
        colors_of_palette(rows, pid).contains(cid),
    decreases rows.len(),
{
    let prefix = rows.drop_last();
    let l = colors_of_palette(rows, pid);
    if rows.last().1 == pid && rows.last().2 == cid {
        assert(l[l.len() - 1] == cid);
    } else {
        let k = choose|k: int| 0 <= k < rows.len() && (#[trigger] rows[k]).1 == pid && rows[k].2 == cid;
        assert(k < prefix.len());
        assert(prefix[k] == rows[k]);
        lemma_has_link_in_colors_of_palette(prefix, pid, cid);
        let lp = colors_of_palette(prefix, pid);
        let i = choose|i: int| 0 <= i < lp.len() && lp[i] == cid;
        assert(l[i] == lp[i]);
    }
}

proof fn lemma_no_colors_of_palette(rows: Seq<(i64, i64, i64)>, pid: i64)
    requires
        forall|k: int| 0 <= k < rows.len() ==> (#[trigger] rows[k]).1 != pid,
    ensures
        colors_of_palette(rows, pid) == Seq::<i64>::empty(),
    decreases rows.len(),
{
    if rows.len() > 0 {
        let prefix = rows.drop_last();
        assert forall|k: int| 0 <= k < prefix.len() implies (#[trigger] prefix[k]).1 != pid by {
            assert(prefix[k] == rows[k]);
        }
        lemma_no_colors_of_palette(prefix, pid);
        assert(rows[rows.len() - 1] == rows.last());
    }
}

/// Copying links from the `i`th loaded colour on, the loaded ids being
/// distinct and the new palette holding the first `i` of them in order:
/// once the run commits it holds all of them, in order.
proof fn lemma_copy_order(s: SessionView, db: Tables, i: int, f: nat, db1: Tables)
    requires
        0 <= s.next,
        s.next + 2 == s.tasks.len(),
        s.tasks[s.next] is CopyJunctions,
        s.tasks[s.next + 1] is Commit,
        0 <= i <= s.loaded.len() <= usize::MAX,
        palette_ids(db.palettes).contains(s.palette_id),
        forall|k: int| i <= k < s.loaded.len() ==> color_ids(db.colors).contains(#[trigger] s.loaded[k]),
        forall|a: int, b: int| 0 <= a < b < s.loaded.len() ==> s.loaded[a] != s.loaded[b],
        colors_of_palette(db.junctions, s.palette_id) == s.loaded.take(i),
        run(copy_from(s, i).0, copy_from(s, i).1, db, f) == Some((db1, true)),
    ensures
        colors_of_palette(db1.junctions, s.palette_id) == s.loaded,
    decreases s.loaded.len() - i,
{
    let pid = s.palette_id;
    if i == s.loaded.len() {
        let (sc, rc) = launch(task_done(s));
        assert(sc.stage == Stage::Commit && rc == RequestView::Commit);
        if f == 0 {
            assert(run(sc, rc, db, f) is None);
        }
        assert(answer(db, sc) == (db, ReplyView::Done));
        let sf = step(sc, ReplyView::Done).0;
        assert(run(sc, rc, db, f) == run(sf, RequestView::Finish { success: true }, db, (f - 1) as nat));
        assert(db1 == db);
        assert(s.loaded.take(i) =~= s.loaded);
    } else {
        let x = s.loaded[i];
        let (sa, ra) = copy_from(s, i);
        assert(sa.stage == Stage::CopyFind(i as usize));
        if f == 0 {
            assert(run(sa, ra, db, f) is None);
        }
        let lb = links_between(db.junctions, pid, x);
        assert(answer(db, sa) == (db, ReplyView::Ids(lb)));
        let (sb, rb) = step(sa, ReplyView::Ids(lb));
        assert(run(sa, ra, db, f) == run(sb, rb, db, (f - 1) as nat));
        lemma_links_between_has_link(db.junctions, pid, x);
        if lb.len() > 0 {
            lemma_has_link_in_colors_of_palette(db.junctions, pid, x);
            let k = choose|k: int| 0 <= k < s.loaded.take(i).len() && s.loaded.take(i)[k] == x;
            assert(s.loaded[k] == x);
            assert(false);
        }
        assert(sb.stage == Stage::CopyInsert(i as usize));
        if f == 1 {
            assert(run(sb, rb, db, 0) is None);
        }
        let j = new_id(junction_ids(db.junctions));
        let db2 = Tables { junctions: db.junctions.push((j, pid, x)), ..db };
        assert(answer(db, sb) == (db2, ReplyView::RowId(j)));
        assert(step(sb, ReplyView::RowId(j)) == copy_from(s, i + 1));
        assert(run(sb, rb, db, (f - 1) as nat) == run(copy_from(s, i + 1).0, copy_from(s, i + 1).1, db2, (f - 2) as nat));
        assert(db2.junctions.drop_last() =~= db.junctions);
        assert(colors_of_palette(db2.junctions, pid) == s.loaded.take(i).push(x));
        assert(s.loaded.take(i).push(x) =~= s.loaded.take(i + 1));
        lemma_copy_order(s, db2, i + 1, (f - 2) as nat, db1);
    }
}

/// Duplicating a palette whose colours are distinct, where every link
/// names rows that exist: once it succeeds, the new palette holds the
/// original's colours in the same order.
pub proof fn duplicate_keeps_color_order(pid: i64, name: Seq<char>, db0: Tables, db1: Tables)
    requires
        links_exist(db0),
        db0.junctions.len() <= usize::MAX,
        forall|k: int| 0 <= k < db0.palettes.len() ==> (#[trigger] db0.palettes[k]).0 < i64::MAX,
        forall|a: int, b: int|
            0 <= a < b < colors_of_palette(db0.junctions, pid).len() ==> colors_of_palette(db0.junctions, pid)[a]
                != colors_of_palette(db0.junctions, pid)[b],
        performs(duplicate_palette_session(pid, name), db0, db1, true),
    ensures
        colors_of_palette(db1.junctions, new_id(palette_ids(db0.palettes))) == colors_of_palette(
            db0.junctions,
            pid,
        ),
{
    let session = duplicate_palette_session(pid, name);
    let f = choose|f: nat| outcome(session, db0, f) == Some((db1, true));
    let (s1, r1) = step(session, ReplyView::Done);
    let l = colors_of_palette(db0.junctions, pid);
    lemma_colors_of_palette_from(db0.junctions, pid);
    assert(answer(db0, s1) == (db0, ReplyView::Ids(l)));
    if f == 0 {
        assert(run(s1, r1, db0, f) is None);
    }
    let (s2, r2) = step(s1, ReplyView::Ids(l));
    assert(run(s1, r1, db0, f) == run(s2, r2, db0, (f - 1) as nat));
    if l.len() == 0 {
        assert(run(s2, r2, db0, (f - 1) as nat) == Some((db0, false)));
    } else {
        if f == 1 {
            assert(run(s2, r2, db0, 0) is None);
        }
        let (s3, r3) = step(s2, ReplyView::Done);
        assert(run(s2, r2, db0, (f - 1) as nat) == run(s3, r3, db0, (f - 2) as nat));
        if f == 2 {
            assert(run(s3, r3, db0, 0) is None);
        }
        let ids = palette_ids(db0.palettes);
        let nid = new_id(ids);
        let dbp = Tables { palettes: db0.palettes.push((nid, name)), ..db0 };
        assert(answer(db0, s3) == (dbp, ReplyView::RowId(nid)));
        let (s4, r4) = step(s3, ReplyView::RowId(nid));
        let sc = task_done(SessionView { palette_id: nid, ..s3 });
        assert((s4, r4) == launch(sc));
        assert(launch(sc) == copy_from(sc, 0));
        assert(run(s3, r3, db0, (f - 2) as nat) == run(s4, r4, dbp, (f - 3) as nat));
        lemma_palette_ids_push(db0.palettes, (nid, name));
        assert forall|k: int| 0 <= k < l.len() implies color_ids(dbp.colors).contains(#[trigger] l[k]) by {
            assert(has_link(db0.junctions, pid, l[k]));
            let m = choose|m: int| 0 <= m < db0.junctions.len() && (#[trigger] db0.junctions[m]).1 == pid && db0.junctions[m].2 == l[k];
            assert(color_ids(db0.colors).contains(db0.junctions[m].2));
        }
        assert forall|k: int| 0 <= k < ids.len() implies ids[k] < i64::MAX by {
            assert(ids[k] == db0.palettes[k].0);
        }
        lemma_new_id_fresh(ids);
        assert forall|k: int| 0 <= k < db0.junctions.len() implies (#[trigger] db0.junctions[k]).1 != nid by {
            assert(ids.contains(db0.junctions[k].1));
        }
        lemma_no_colors_of_palette(db0.junctions, nid);
        assert(l.take(0) =~= Seq::<i64>::empty());
        lemma_copy_order(sc, dbp, 0, (f - 3) as nat, db1);
    }
}

/// Pruning from the `i`th candidate, in a run that commits: it takes
/// `prune_steps` replies and leaves `prune_rest`.
proof fn lemma_prune_peel(s: SessionView, db: Tables, i: int, f: nat, db1: Tables)
    requires
        0 <= s.next < s.tasks.len(),
        s.tasks[s.next] is Prune,
        0 <= i <= s.candidates.len() <= usize::MAX,
        run(prune_from(s, i).0, prune_from(s, i).1, db, f) == Some((db1, true)),
    ensures
        f >= prune_steps(db, current_table(s), s.candidates, i),
        run(
            launch(task_done(s)).0,
            launch(task_done(s)).1,
            prune_rest(db, current_table(s), s.candidates, i),
            (f - prune_steps(db, current_table(s), s.candidates, i)) as nat,
        ) == Some((db1, true)),
    decreases s.candidates.len() - i,
{
    let t = current_table(s);
    if i < s.candidates.len() {
        let (sp, rp) = prune_from(s, i);
        if f == 0 {
            assert(run(sp, rp, db, f) is None);
        }
        let id = s.candidates[i];
        let l = links_of(db.junctions, t, id);
        assert(current_table(sp) == t);
        assert(answer(db, sp) == (db, ReplyView::Ids(l)));
        let (s2, r2) = step(sp, ReplyView::Ids(l));
        assert(run(sp, rp, db, f) == run(s2, r2, db, (f - 1) as nat));
        if l.len() == 0 {
            assert(s2.stage == Stage::PruneDelete(i as usize));
            if f == 1 {
                assert(run(s2, r2, db, 0) is None);
            }
            assert(current_table(s2) == t);
            let db2 = without_row(db, t, id);
            assert(answer(db, s2) == (db2, ReplyView::Done));
            let (s3, r3) = step(s2, ReplyView::Done);
            assert((s3, r3) == prune_from(s, i + 1));
            assert(run(s2, r2, db, (f - 1) as nat) == run(s3, r3, db2, (f - 2) as nat));
            lemma_prune_peel(s, db2, i + 1, (f - 2) as nat, db1);
        } else {
            assert(step(sp, ReplyView::Ids(l)) == prune_from(s, i + 1));
            lemma_prune_peel(s, db, i + 1, (f - 1) as nat, db1);
        }
    }
}

/// In a run that commits, starting a transaction succeeds and changes
/// nothing.
proof fn lemma_peel_begin(s: SessionView, db: Tables, f: nat, db1: Tables)
    requires
        0 <= s.next < s.tasks.len(),
        s.tasks[s.next] is Begin,
        run(launch(s).0, launch(s).1, db, f) == Some((db1, true)),
    ensures
        f >= 1,
        run(launch(task_done(s)).0, launch(task_done(s)).1, db, (f - 1) as nat) == Some((db1, true)),
{
    let (sa, ra) = launch(s);
    if f == 0 {
        assert(run(sa, ra, db, f) is None);
    }
    assert(answer(db, sa) == (db, ReplyView::Done));
    assert(task_done(sa) == task_done(s));
    assert(run(sa, ra, db, f) == run(launch(task_done(s)).0, launch(task_done(s)).1, db, (f - 1) as nat));
}

/// In a run that commits, a statement succeeds, leaving what it does.
proof fn lemma_peel_execute(s: SessionView, st: StatementView, db: Tables, f: nat, db1: Tables)
    requires
        0 <= s.next < s.tasks.len(),
        s.tasks[s.next] == (TaskView::Execute { statement: st }),
        run(launch(s).0, launch(s).1, db, f) == Some((db1, true)),
    ensures
        f >= 1,
        execute(db, st).1 == ReplyView::Done,
        run(launch(task_done(s)).0, launch(task_done(s)).1, execute(db, st).0, (f - 1) as nat) == Some(
            (db1, true),
        ),
{
    let (sa, ra) = launch(s);
    if f == 0 {
        assert(run(sa, ra, db, f) is None);
    }
    assert(sa.stage == Stage::Execute);
    assert(answer(db, sa) == execute(db, st));
    assert(task_done(sa) == task_done(s));
    let (s2, r2) = step(sa, execute(db, st).1);
    assert(run(sa, ra, db, f) == run(s2, r2, execute(db, st).0, (f - 1) as nat));
    if execute(db, st).1 != ReplyView::Done {
        assert(r2 == RequestView::Finish { success: false });
        assert(run(s2, r2, execute(db, st).0, (f - 1) as nat) == Some((execute(db, st).0, false)));
    }
}

/// The tables after pruning every row of table `t` that no link names.
pub open spec fn pruned(db: Tables, t: Table) -> Tables {
    prune_rest(db, t, table_ids(db, t), 0)
}

/// In a run that commits, pruning a table leaves `pruned`.
proof fn lemma_peel_prune(s: SessionView, t: Table, db: Tables, f: nat, db1: Tables) -> (r: nat)
    requires
        0 <= s.next < s.tasks.len(),
        s.tasks[s.next] == (TaskView::Prune { table: t }),
        table_ids(db, t).len() <= usize::MAX,
        run(launch(s).0, launch(s).1, db, f) == Some((db1, true)),
    ensures
        run(
            launch(SessionView { next: s.next + 1, stage: Stage::Start, candidates: table_ids(db, t), ..s }).0,
            launch(SessionView { next: s.next + 1, stage: Stage::Start, candidates: table_ids(db, t), ..s }).1,
            pruned(db, t),
            r,
        ) == Some((db1, true)),
{
    let (sa, ra) = launch(s);
    if f == 0 {
        assert(run(sa, ra, db, f) is None);
    }
    assert(sa.stage == Stage::PruneList);
    assert(current_table(sa) == t);
    let ids = table_ids(db, t);
    assert(answer(db, sa) == (db, ReplyView::Ids(ids)));
    let sb = SessionView { candidates: ids, ..sa };
    assert(step(sa, ReplyView::Ids(ids)) == prune_from(sb, 0));
    assert(run(sa, ra, db, f) == run(prune_from(sb, 0).0, prune_from(sb, 0).1, db, (f - 1) as nat));
    lemma_prune_peel(sb, db, 0, (f - 1) as nat, db1);
    assert(current_table(sb) == t);
    assert(task_done(sb) == SessionView { next: s.next + 1, stage: Stage::Start, candidates: ids, ..s });
    (f - 1 - prune_steps(db, t, ids, 0)) as nat
}

/// A run that reaches the final commit and succeeds leaves the tables as
/// they are then.
proof fn lemma_peel_commit(s: SessionView, db: Tables, f: nat, db1: Tables)
    requires
        0 <= s.next < s.tasks.len(),
        s.tasks[s.next] is Commit,
        run(launch(s).0, launch(s).1, db, f) == Some((db1, true)),
    ensures
        db1 == db,
{
    let (sc, rc) = launch(s);
    if f == 0 {
        assert(run(sc, rc, db, f) is None);
    }
    assert(answer(db, sc) == (db, ReplyView::Done));
    let sf = step(sc, ReplyView::Done).0;
    assert(run(sc, rc, db, f) == run(sf, RequestView::Finish { success: true }, db, (f - 1) as nat));
}

proof fn lemma_drop_palette_subset(rows: Seq<(i64, Seq<char>)>, id: i64)
    ensures
        forall|r: (i64, Seq<char>)| #[trigger] drop_palette(rows, id).contains(r) ==> rows.contains(r) && r.0 != id,
    decreases rows.len(),
{
    if rows.len() > 0 {
        let rest = drop_palette(rows.drop_last(), id);
        lemma_drop_palette_subset(rows.drop_last(), id);
        assert forall|r: (i64, Seq<char>)| drop_palette(rows, id).contains(r) implies rows.contains(r) && r.0 != id by {
            let k = choose|k: int| 0 <= k < drop_palette(rows, id).len() && drop_palette(rows, id)[k] == r;
            if rows.last().0 != id && k == rest.len() {
                assert(rows[rows.len() - 1] == r);
            } else {
                assert(rest[k] == r);
                assert(rest.contains(r));
                assert(rows.drop_last().contains(r));
                let m = choose|m: int| 0 <= m < rows.drop_last().len() && rows.drop_last()[m] == r;
                assert(rows[m] == r);
            }
        }
    }
}

proof fn lemma_drop_color_keeps(rows: Seq<(i64, ColorSpecView)>, id: i64, r: (i64, ColorSpecView))
    requires
        rows.contains(r),
        r.0 != id,
    ensures
        drop_color(rows, id).contains(r),
    decreases rows.len(),
{
    let rest = drop_color(rows.drop_last(), id);
    if rows.last() == r {
        assert(drop_color(rows, id)[rest.len() as int] == r);
    } else {
        let k = choose|k: int| 0 <= k < rows.len() && rows[k] == r;
        assert(rows.drop_last()[k] == r);
        lemma_drop_color_keeps(rows.drop_last(), id, r);
        let m = choose|m: int| 0 <= m < rest.len() && rest[m] == r;
        assert(drop_color(rows, id)[m] == r);
    }
}

proof fn lemma_drop_palette_keeps(rows: Seq<(i64, Seq<char>)>, id: i64, r: (i64, Seq<char>))
    requires
        rows.contains(r),
        r.0 != id,
    ensures
        drop_palette(rows, id).contains(r),
    decreases rows.len(),
{
    let rest = drop_palette(rows.drop_last(), id);
    if rows.last() == r {
        assert(drop_palette(rows, id)[rest.len() as int] == r);
    } else {
        let k = choose|k: int| 0 <= k < rows.len() && rows[k] == r;
        assert(rows.drop_last()[k] == r);
        lemma_drop_palette_keeps(rows.drop_last(), id, r);
        let m = choose|m: int| 0 <= m < rest.len() && rest[m] == r;
        assert(drop_palette(rows, id)[m] == r);
    }
}

/// The links that dropping keeps are exactly those it does not pick.
proof fn lemma_drop_links_contains(
    rows: Seq<(i64, i64, i64)>,
    d: spec_fn((i64, i64, i64)) -> bool,
    r: (i64, i64, i64),
)
    ensures
        drop_links(rows, d).contains(r) == (rows.contains(r) && !d(r)),
    decreases rows.len(),
{
    if rows.len() > 0 {
        let prefix = rows.drop_last();
        let rest = drop_links(prefix, d);
        lemma_drop_links_contains(prefix, d, r);
        let out = drop_links(rows, d);
        if rows.contains(r) && !d(r) {
            let k = choose|k: int| 0 <= k < rows.len() && rows[k] == r;
            if k == rows.len() - 1 {
                assert(out[rest.len() as int] == r);
            } else {
                assert(prefix[k] == r);
                let m = choose|m: int| 0 <= m < rest.len() && rest[m] == r;
                assert(out[m] == r);
            }
        }
        if out.contains(r) {
            let k = choose|k: int| 0 <= k < out.len() && out[k] == r;
            if !d(rows.last()) && k == rest.len() {
                assert(rows[rows.len() - 1] == r);
            } else {
                assert(rest[k] == r);
                let m = choose|m: int| 0 <= m < prefix.len() && prefix[m] == r;
                assert(rows[m] == r);
            }
        }
    }
}

/// Pruning the palettes changes neither the colours nor the links.
proof fn lemma_prune_palettes_frame(db: Tables, cands: Seq<i64>, i: int)
    ensures
        prune_rest(db, Table::Palettes, cands, i).colors == db.colors,
        prune_rest(db, Table::Palettes, cands, i).junctions == db.junctions,
    decreases cands.len() - i,
{
    if 0 <= i < cands.len() {
        if links_of(db.junctions, Table::Palettes, cands[i]).len() == 0 {
            lemma_prune_palettes_frame(without_row(db, Table::Palettes, cands[i]), cands, i + 1);
        } else {
            lemma_prune_palettes_frame(db, cands, i + 1);
        }
    }
}

/// Each palette that pruning leaves was there before, and is linked if it
/// was among the candidates checked.
proof fn lemma_pruned_palettes_linked(db: Tables, cands: Seq<i64>, i: int, r: (i64, Seq<char>))
    requires
        0 <= i,
        prune_rest(db, Table::Palettes, cands, i).palettes.contains(r),
    ensures
        db.palettes.contains(r),
        forall|k: int| i <= k < cands.len() && cands[k] == r.0 ==> links_of(db.junctions, Table::Palettes, r.0).len() > 0,
    decreases cands.len() - i,
{
    if i < cands.len() {
        if links_of(db.junctions, Table::Palettes, cands[i]).len() == 0 {
            let db2 = without_row(db, Table::Palettes, cands[i]);
            lemma_pruned_palettes_linked(db2, cands, i + 1, r);
            lemma_drop_palette_subset(db.palettes, cands[i]);
            assert(db2.palettes == drop_palette(db.palettes, cands[i]));
            assert(db2.palettes.contains(r));
            assert(r.0 != cands[i]);
        } else {
            lemma_pruned_palettes_linked(db, cands, i + 1, r);
        }
    }
}

/// Pruning keeps every row that a link names.
proof fn lemma_prune_keeps_linked(db: Tables, t: Table, cands: Seq<i64>, i: int, id: i64)
    requires
        0 <= i,
        links_of(db.junctions, t, id).len() > 0,
    ensures
        forall|r: (i64, ColorSpecView)|
            t == Table::Colors && r.0 == id && #[trigger] db.colors.contains(r) ==> prune_rest(db, t, cands, i).colors.contains(r),
        forall|r: (i64, Seq<char>)|
            t == Table::Palettes && r.0 == id && #[trigger] db.palettes.contains(r) ==> prune_rest(db, t, cands, i).palettes.contains(r),
    decreases cands.len() - i,
{
    if i < cands.len() {
        if links_of(db.junctions, t, cands[i]).len() == 0 {
            let db2 = without_row(db, t, cands[i]);
            assert(cands[i] != id);
            assert(db2.junctions == db.junctions);
            lemma_prune_keeps_linked(db2, t, cands, i + 1, id);
            assert forall|r: (i64, ColorSpecView)| t == Table::Colors && r.0 == id && #[trigger] db.colors.contains(r) implies db2.colors.contains(r) by {
                lemma_drop_color_keeps(db.colors, cands[i], r);
            }
            assert forall|r: (i64, Seq<char>)| t == Table::Palettes && r.0 == id && #[trigger] db.palettes.contains(r) implies db2.palettes.contains(r) by {
                lemma_drop_palette_keeps(db.palettes, cands[i], r);
            }
        } else {
            lemma_prune_keeps_linked(db, t, cands, i + 1, id);
        }
    }
}

/// After pruning a table over all its ids, every row of it is linked, and
/// every linked row is still there.
proof fn lemma_pruned_table(db: Tables, t: Table)
    ensures
        t == Table::Colors ==> pruned(db, t).palettes == db.palettes && pruned(db, t).junctions == db.junctions,
        t == Table::Palettes ==> pruned(db, t).colors == db.colors && pruned(db, t).junctions == db.junctions,
        t == Table::Colors ==> forall|k: int|
            0 <= k < pruned(db, t).colors.len() ==> links_of(pruned(db, t).junctions, Table::Colors, #[trigger] pruned(db, t).colors[k].0).len() > 0,
        t == Table::Palettes ==> forall|k: int|
            0 <= k < pruned(db, t).palettes.len() ==> links_of(pruned(db, t).junctions, Table::Palettes, #[trigger] pruned(db, t).palettes[k].0).len() > 0,
        t == Table::Colors ==> forall|r: (i64, ColorSpecView)|
            #[trigger] db.colors.contains(r) && links_of(db.junctions, Table::Colors, r.0).len() > 0 ==> pruned(db, t).colors.contains(r),
        t == Table::Palettes ==> forall|r: (i64, Seq<char>)|
            #[trigger] db.palettes.contains(r) && links_of(db.junctions, Table::Palettes, r.0).len() > 0 ==> pruned(db, t).palettes.contains(r),
        t == Table::Colors ==> forall|r: (i64, ColorSpecView)|
            #[trigger] pruned(db, t).colors.contains(r) ==> db.colors.contains(r),
        t == Table::Palettes ==> forall|r: (i64, Seq<char>)|
            #[trigger] pruned(db, t).palettes.contains(r) ==> db.palettes.contains(r),
{
    let ids = table_ids(db, t);
    let p = pruned(db, t);
    if t == Table::Colors {
        lemma_prune_colors_frame(db, ids, 0);
        assert forall|k: int| 0 <= k < p.colors.len() implies links_of(p.junctions, Table::Colors, #[trigger] p.colors[k].0).len() > 0 by {
            let r = p.colors[k];
            assert(p.colors.contains(r));
            lemma_pruned_colors_linked(db, ids, 0, r);
            let m = choose|m: int| 0 <= m < db.colors.len() && db.colors[m] == r;
            assert(ids[m] == r.0);
        }
        assert forall|r: (i64, ColorSpecView)| #[trigger] db.colors.contains(r) && links_of(db.junctions, Table::Colors, r.0).len() > 0 implies p.colors.contains(r) by {
            lemma_prune_keeps_linked(db, t, ids, 0, r.0);
        }
        assert forall|r: (i64, ColorSpecView)| #[trigger] p.colors.contains(r) implies db.colors.contains(r) by {
            lemma_pruned_colors_linked(db, ids, 0, r);
        }
    } else {
        lemma_prune_palettes_frame(db, ids, 0);
        assert forall|k: int| 0 <= k < p.palettes.len() implies links_of(p.junctions, Table::Palettes, #[trigger] p.palettes[k].0).len() > 0 by {
            let r = p.palettes[k];
            assert(p.palettes.contains(r));
            lemma_pruned_palettes_linked(db, ids, 0, r);
            let m = choose|m: int| 0 <= m < db.palettes.len() && db.palettes[m] == r;
            assert(ids[m] == r.0);
        }
        assert forall|r: (i64, Seq<char>)| #[trigger] db.palettes.contains(r) && links_of(db.junctions, Table::Palettes, r.0).len() > 0 implies p.palettes.contains(r) by {
            lemma_prune_keeps_linked(db, t, ids, 0, r.0);
        }
        assert forall|r: (i64, Seq<char>)| #[trigger] p.palettes.contains(r) implies db.palettes.contains(r) by {
            lemma_pruned_palettes_linked(db, ids, 0, r);
        }
    }
}

proof fn lemma_renamed(rows: Seq<(i64, Seq<char>)>, id: i64, name: Seq<char>)
    ensures
        forall|r: (i64, Seq<char>)|
            #[trigger] renamed(rows, id, name).contains(r) ==> if r.0 == id {
                r.1 == name
            } else {
                rows.contains(r)
            },
        forall|r: (i64, Seq<char>)|
            #[trigger] rows.contains(r) ==> renamed(rows, id, name).contains(
                if r.0 == id {
                    (id, name)
                } else {
                    r
                },
            ),
{
    let out = renamed(rows, id, name);
    assert forall|r: (i64, Seq<char>)| #[trigger] out.contains(r) implies if r.0 == id {
        r.1 == name
    } else {
        rows.contains(r)
    } by {
        let k = choose|k: int| 0 <= k < out.len() && out[k] == r;
        assert(out[k] == (if rows[k].0 == id { (id, name) } else { rows[k] }));
    }
    assert forall|r: (i64, Seq<char>)| #[trigger] rows.contains(r) implies out.contains(
        if r.0 == id {
            (id, name)
        } else {
            r
        },
    ) by {
        let k = choose|k: int| 0 <= k < rows.len() && rows[k] == r;
        assert(out[k] == (if rows[k].0 == id { (id, name) } else { rows[k] }));
    }
}

/// Renaming a palette: once it succeeds the links are unchanged; the
/// palette, where a link names it, is there under the new name; every
/// other linked palette and every linked colour is kept; nothing else is
/// added; and every colour and palette left is linked.
pub proof fn rename_palette_renames(pid: i64, name: Seq<char>, db0: Tables, db1: Tables)
    requires
        db0.colors.len() <= usize::MAX,
        db0.palettes.len() <= usize::MAX,
        performs(rename_palette_session(pid, name), db0, db1, true),
    ensures
        db1.junctions == db0.junctions,
        forall|r: (i64, Seq<char>)| #[trigger] db1.palettes.contains(r) && r.0 == pid ==> r.1 == name,
        forall|r: (i64, Seq<char>)| #[trigger] db1.palettes.contains(r) && r.0 != pid ==> db0.palettes.contains(r),
        forall|r: (i64, Seq<char>)|
            #[trigger] db0.palettes.contains(r) && links_of(db0.junctions, Table::Palettes, r.0).len() > 0
                ==> db1.palettes.contains(if r.0 == pid { (pid, name) } else { r }),
        forall|r: (i64, ColorSpecView)| #[trigger] db1.colors.contains(r) ==> db0.colors.contains(r),
        forall|r: (i64, ColorSpecView)|
            #[trigger] db0.colors.contains(r) && links_of(db0.junctions, Table::Colors, r.0).len() > 0
                ==> db1.colors.contains(r),
        rows_linked(db1),
{
    let s0 = rename_palette_session(pid, name);
    let st = StatementView::Rename { palette_id: pid, name };
    let f = choose|f: nat| outcome(s0, db0, f) == Some((db1, true));
    assert(step(s0, ReplyView::Done) == launch(s0));
    lemma_peel_begin(s0, db0, f, db1);
    let s1 = task_done(s0);
    lemma_peel_execute(s1, st, db0, (f - 1) as nat, db1);
    let da = execute(db0, st).0;
    let s2 = task_done(s1);
    assert(table_ids(da, Table::Colors).len() == db0.colors.len());
    let f3 = lemma_peel_prune(s2, Table::Colors, da, (f - 2) as nat, db1);
    let db = pruned(da, Table::Colors);
    let s3 = SessionView { next: s2.next + 1, stage: Stage::Start, candidates: table_ids(da, Table::Colors), ..s2 };
    lemma_pruned_table(da, Table::Colors);
    assert(table_ids(db, Table::Palettes).len() == db0.palettes.len());
    let f4 = lemma_peel_prune(s3, Table::Palettes, db, f3, db1);
    let dc = pruned(db, Table::Palettes);
    let s4 = SessionView { next: s3.next + 1, stage: Stage::Start, candidates: table_ids(db, Table::Palettes), ..s3 };
    lemma_peel_commit(s4, dc, f4, db1);
    lemma_pruned_table(db, Table::Palettes);
    lemma_renamed(db0.palettes, pid, name);
    assert(db1 == dc);
}

/// Removing a colour from a palette: once it succeeds no link joins them,
/// every other link is kept; every colour and palette that a remaining
/// link names is kept, nothing is added, and every row left is linked.
pub proof fn remove_color_unlinks(cid: i64, pid: i64, db0: Tables, db1: Tables)
    requires
        db0.colors.len() <= usize::MAX,
        db0.palettes.len() <= usize::MAX,
        performs(remove_color_from_palette_session(cid, pid), db0, db1, true),
    ensures
        !has_link(db1.junctions, pid, cid),
        forall|r: (i64, i64, i64)|
            #[trigger] db1.junctions.contains(r) == (db0.junctions.contains(r) && !(r.1 == pid && r.2 == cid)),
        forall|r: (i64, ColorSpecView)| #[trigger] db1.colors.contains(r) ==> db0.colors.contains(r),
        forall|r: (i64, ColorSpecView)|
            #[trigger] db0.colors.contains(r) && links_of(db1.junctions, Table::Colors, r.0).len() > 0
                ==> db1.colors.contains(r),
        forall|r: (i64, Seq<char>)| #[trigger] db1.palettes.contains(r) ==> db0.palettes.contains(r),
        forall|r: (i64, Seq<char>)|
            #[trigger] db0.palettes.contains(r) && links_of(db1.junctions, Table::Palettes, r.0).len() > 0
                ==> db1.palettes.contains(r),
        rows_linked(db1),
{
    let s0 = remove_color_from_palette_session(cid, pid);
    let st = StatementView::RemoveColor { color_id: cid, palette_id: pid };
    let f = choose|f: nat| outcome(s0, db0, f) == Some((db1, true));
    assert(step(s0, ReplyView::Done) == launch(s0));
    lemma_peel_begin(s0, db0, f, db1);
    let s1 = task_done(s0);
    lemma_peel_execute(s1, st, db0, (f - 1) as nat, db1);
    let da = execute(db0, st).0;
    let s2 = task_done(s1);
    assert(table_ids(da, Table::Colors).len() == db0.colors.len());
    let f3 = lemma_peel_prune(s2, Table::Colors, da, (f - 2) as nat, db1);
    let db = pruned(da, Table::Colors);
    let s3 = SessionView { next: s2.next + 1, stage: Stage::Start, candidates: table_ids(da, Table::Colors), ..s2 };
    lemma_pruned_table(da, Table::Colors);
    assert(table_ids(db, Table::Palettes).len() == db0.palettes.len());
    let f4 = lemma_peel_prune(s3, Table::Palettes, db, f3, db1);
    let dc = pruned(db, Table::Palettes);
    let s4 = SessionView { next: s3.next + 1, stage: Stage::Start, candidates: table_ids(db, Table::Palettes), ..s3 };
    lemma_peel_commit(s4, dc, f4, db1);
    lemma_pruned_table(db, Table::Palettes);
    assert(db1 == dc);
    let d = |r: (i64, i64, i64)| r.1 == pid && r.2 == cid;
    assert(da.junctions == drop_links(db0.junctions, d));
    assert(db1.junctions == da.junctions);
    assert forall|r: (i64, i64, i64)| #[trigger] db1.junctions.contains(r) == (db0.junctions.contains(r) && !(r.1 == pid && r.2 == cid)) by {
        lemma_drop_links_contains(db0.junctions, d, r);
    }
    if has_link(db1.junctions, pid, cid) {
        let k = choose|k: int| 0 <= k < db1.junctions.len() && (#[trigger] db1.junctions[k]).1 == pid && db1.junctions[k].2 == cid;
        assert(db1.junctions.contains(db1.junctions[k]));
    }
}

/// Deleting a palette: once it succeeds the palette and its links are
/// gone, every other palette and link is kept; every colour that a
/// remaining link names is kept, no colour is added, and every colour left
/// is linked.
pub proof fn delete_palette_removes(pid: i64, db0: Tables, db1: Tables)
    requires
        db0.colors.len() <= usize::MAX,
        performs(delete_palette_session(pid), db0, db1, true),
    ensures
        !palette_ids(db1.palettes).contains(pid),
        forall|r: (i64, Seq<char>)| #[trigger] db1.palettes.contains(r) == (db0.palettes.contains(r) && r.0 != pid),
        forall|r: (i64, i64, i64)| #[trigger] db1.junctions.contains(r) == (db0.junctions.contains(r) && r.1 != pid),
        forall|r: (i64, ColorSpecView)| #[trigger] db1.colors.contains(r) ==> db0.colors.contains(r),
        forall|r: (i64, ColorSpecView)|
            #[trigger] db0.colors.contains(r) && links_of(db1.junctions, Table::Colors, r.0).len() > 0
                ==> db1.colors.contains(r),
        forall|k: int|
            0 <= k < db1.colors.len() ==> links_of(db1.junctions, Table::Colors, #[trigger] db1.colors[k].0).len() > 0,
{
    let s0 = delete_palette_session(pid);
    let unlink = StatementView::UnlinkPalette { palette_id: pid };
    let del = StatementView::DeletePalette { palette_id: pid };
    let f = choose|f: nat| outcome(s0, db0, f) == Some((db1, true));
    assert(step(s0, ReplyView::Done) == launch(s0));
    lemma_peel_begin(s0, db0, f, db1);
    let s1 = task_done(s0);
    lemma_peel_execute(s1, unlink, db0, (f - 1) as nat, db1);
    let da = execute(db0, unlink).0;
    let s2 = task_done(s1);
    lemma_peel_execute(s2, del, da, (f - 2) as nat, db1);
    let db = execute(da, del).0;
    let s3 = task_done(s2);
    assert(db == without_row(da, Table::Palettes, pid));
    assert(table_ids(db, Table::Colors).len() == db0.colors.len());
    let f4 = lemma_peel_prune(s3, Table::Colors, db, (f - 3) as nat, db1);
    let dc = pruned(db, Table::Colors);
    let s4 = SessionView { next: s3.next + 1, stage: Stage::Start, candidates: table_ids(db, Table::Colors), ..s3 };
    lemma_peel_commit(s4, dc, f4, db1);
    lemma_pruned_table(db, Table::Colors);
    assert(db1 == dc);
    let d = |r: (i64, i64, i64)| r.1 == pid;
    assert(da.junctions == drop_links(db0.junctions, d));
    assert forall|r: (i64, i64, i64)| #[trigger] db1.junctions.contains(r) == (db0.junctions.contains(r) && r.1 != pid) by {
        lemma_drop_links_contains(db0.junctions, d, r);
    }
    lemma_drop_palette_subset(db0.palettes, pid);
    assert(db1.palettes == drop_palette(db0.palettes, pid));
    assert forall|r: (i64, Seq<char>)| #[trigger] db1.palettes.contains(r) == (db0.palettes.contains(r) && r.0 != pid) by {
        if db0.palettes.contains(r) && r.0 != pid {
            lemma_drop_palette_keeps(db0.palettes, pid, r);
        }
    }
    if palette_ids(db1.palettes).contains(pid) {
        let k = choose|k: int| 0 <= k < palette_ids(db1.palettes).len() && palette_ids(db1.palettes)[k] == pid;
        assert(db1.palettes.contains(db1.palettes[k]));
    }
}
} // verus!
