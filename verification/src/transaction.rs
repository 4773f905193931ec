//! The palette database's write operations, as sessions.
//!
//! A session is a plan of tasks (start a transaction, add a palette, add or
//! find a colour, link it to the palette, run a statement, prune a table,
//! commit) that the session carries out one request at a time: each call of
//! `advance` takes the reply to the previous request and returns the next
//! request, until it returns `Finish`. The caller performs each request on
//! the database; a `Finish` that does not follow a successful commit leaves
//! the transaction uncommitted.
use vstd::prelude::*;
use crate::sql::{
    Table, colors_of_palette_text, insert_palette_text, insert_color_text,
    insert_junction_text, find_color_text, find_junction_text, list_ids_text, junctions_of_text,
    delete_row_text, rename_palette_text, remove_color_text, unlink_palette_text,
    delete_palette_text,
};
use crate::extracted_color::{ExtractedColor, ExtractedColorView, opaque_alpha};

verus! {

/// The values of a colour row to find or insert.
#[derive(Debug, PartialEq, Eq)]
pub struct ColorSpec {
    pub red: i64,
    pub green: i64,
    pub blue: i64,
    pub alpha: String,
    pub hex: String,
}

pub struct ColorSpecView {
    pub red: i64,
    pub green: i64,
    pub blue: i64,
    pub alpha: Seq<char>,
    pub hex: Seq<char>,
}

impl View for ColorSpec {
    type V = ColorSpecView;

    open spec fn view(&self) -> ColorSpecView {
        ColorSpecView {
            red: self.red,
            green: self.green,
            blue: self.blue,
            alpha: self.alpha@,
            hex: self.hex@,
        }
    }
}

impl ColorSpec {
    pub fn copy(&self) -> (c: ColorSpec)
        ensures
            c@ == self@,
    {
        ColorSpec {
            red: self.red,
            green: self.green,
            blue: self.blue,
            alpha: self.alpha.clone(),
            hex: self.hex.clone(),
        }
    }
}

/// The values bound to a statement's parameters.
#[derive(Debug, PartialEq, Eq)]
pub enum Params {
    Nothing,
    Name(String),
    Color(ColorSpec),
    Junction(i64, i64),
    PaletteId(i64),
}

pub enum ParamsView {
    Nothing,
    Name(Seq<char>),
    Color(ColorSpecView),
    Junction(i64, i64),
    PaletteId(i64),
}

impl View for Params {
    type V = ParamsView;

    open spec fn view(&self) -> ParamsView {
        match self {
            Params::Nothing => ParamsView::Nothing,
            Params::Name(n) => ParamsView::Name(n@),
            Params::Color(c) => ParamsView::Color(c@),
            Params::Junction(p, c) => ParamsView::Junction(*p, *c),
            Params::PaletteId(p) => ParamsView::PaletteId(*p),
        }
    }
}

/// What the session asks of the database next.
#[derive(Debug, PartialEq, Eq)]
pub enum Request {
    /// Start a transaction. Reply `Done` or `Failed`.
    Begin,
    /// Run a query whose rows hold one integer each. Reply `Ids` or `Failed`.
    Query { sql: String, params: Params },
    /// Run an insert. Reply `RowId` with the new row's id, or `Failed`.
    Insert { sql: String, params: Params },
    /// Run a statement. Reply `Done` or `Failed`.
    Execute { sql: String },
    /// Commit the transaction. Reply `Done` or `Failed`.
    Commit,
    /// The operation is over; `success` is its result.
    Finish { success: bool },
}

pub enum RequestView {
    Begin,
    Query { sql: Seq<char>, params: ParamsView },
    Insert { sql: Seq<char>, params: ParamsView },
    Execute { sql: Seq<char> },
    Commit,
    Finish { success: bool },
}

impl View for Request {
    type V = RequestView;

    open spec fn view(&self) -> RequestView {
        match self {
            Request::Begin => RequestView::Begin,
            Request::Query { sql, params } => RequestView::Query { sql: sql@, params: params@ },
            Request::Insert { sql, params } => RequestView::Insert { sql: sql@, params: params@ },
            Request::Execute { sql } => RequestView::Execute { sql: sql@ },
            Request::Commit => RequestView::Commit,
            Request::Finish { success } => RequestView::Finish { success: *success },
        }
    }
}

/// The database's answer to a request.
#[derive(Debug, PartialEq, Eq)]
pub enum Reply {
    Done,
    RowId(i64),
    Ids(Vec<i64>),
    Failed,
}

pub enum ReplyView {
    Done,
    RowId(i64),
    Ids(Seq<i64>),
    Failed,
}

impl View for Reply {
    type V = ReplyView;

    open spec fn view(&self) -> ReplyView {
        match self {
            Reply::Done => ReplyView::Done,
            Reply::RowId(i) => ReplyView::RowId(*i),
            Reply::Ids(v) => ReplyView::Ids(v@),
            Reply::Failed => ReplyView::Failed,
        }
    }
}

/// A change that one statement makes.
pub enum Statement {
    /// Give a palette a new name.
    Rename { palette_id: i64, name: String },
    /// Unlink a colour from a palette.
    RemoveColor { color_id: i64, palette_id: i64 },
    /// Unlink every colour of a palette.
    UnlinkPalette { palette_id: i64 },
    /// Delete a palette.
    DeletePalette { palette_id: i64 },
}

pub enum StatementView {
    Rename { palette_id: i64, name: Seq<char> },
    RemoveColor { color_id: i64, palette_id: i64 },
    UnlinkPalette { palette_id: i64 },
    DeletePalette { palette_id: i64 },
}

impl View for Statement {
    type V = StatementView;

    open spec fn view(&self) -> StatementView {
        match self {
            Statement::Rename { palette_id, name } => StatementView::Rename {
                palette_id: *palette_id,
                name: name@,
            },
            Statement::RemoveColor { color_id, palette_id } => StatementView::RemoveColor {
                color_id: *color_id,
                palette_id: *palette_id,
            },
            Statement::UnlinkPalette { palette_id } => StatementView::UnlinkPalette {
                palette_id: *palette_id,
            },
            Statement::DeletePalette { palette_id } => StatementView::DeletePalette {
                palette_id: *palette_id,
            },
        }
    }
}

/// The SQL text of a statement.
pub open spec fn statement_text(st: StatementView) -> Seq<char> {
    match st {
        StatementView::Rename { palette_id, name } => rename_palette_text(name, palette_id),
        StatementView::RemoveColor { color_id, palette_id } => remove_color_text(
            color_id,
            palette_id,
        ),
        StatementView::UnlinkPalette { palette_id } => unlink_palette_text(palette_id),
        StatementView::DeletePalette { palette_id } => delete_palette_text(palette_id),
    }
}

pub fn statement_sql(st: &Statement) -> (s: String)
    ensures
        s@ == statement_text(st@),
{
    match st {
        Statement::Rename { palette_id, name } => crate::sql::rename_palette(name.as_str(), *palette_id),
        Statement::RemoveColor { color_id, palette_id } => crate::sql::remove_color(
            *color_id,
            *palette_id,
        ),
        Statement::UnlinkPalette { palette_id } => crate::sql::unlink_palette(*palette_id),
        Statement::DeletePalette { palette_id } => crate::sql::delete_palette(*palette_id),
    }
}

/// One step of a plan.
pub enum Task {
    /// Read the colour ids of a palette; none, or a failure, ends the
    /// operation unsuccessfully.
    LoadPaletteColors { palette_id: i64 },
    Begin,
    /// Insert a palette; its id becomes the current palette.
    NewPalette { name: String },
    /// Find a colour with these values, or insert it; its id becomes the
    /// current colour. When not `required`, a failure leaves no current
    /// colour and the operation goes on.
    AddColor { color: ColorSpec, required: bool },
    /// Link the current colour to the current palette unless they are
    /// already linked; skipped when there is no current colour.
    AddJunction { required: bool },
    /// Link every loaded colour to the current palette unless already
    /// linked; failures are passed over.
    CopyJunctions,
    Execute { statement: Statement },
    /// Delete the rows of the table that no junction row names.
    Prune { table: Table },
    Commit,
}

pub enum TaskView {
    LoadPaletteColors { palette_id: i64 },
    Begin,
    NewPalette { name: Seq<char> },
    AddColor { color: ColorSpecView, required: bool },
    AddJunction { required: bool },
    CopyJunctions,
    Execute { statement: StatementView },
    Prune { table: Table },
    Commit,
}

impl View for Task {
    type V = TaskView;

    open spec fn view(&self) -> TaskView {
        match self {
            Task::LoadPaletteColors { palette_id } => TaskView::LoadPaletteColors {
                palette_id: *palette_id,
            },
            Task::Begin => TaskView::Begin,
            Task::NewPalette { name } => TaskView::NewPalette { name: name@ },
            Task::AddColor { color, required } => TaskView::AddColor {
                color: color@,
                required: *required,
            },
            Task::AddJunction { required } => TaskView::AddJunction { required: *required },
            Task::CopyJunctions => TaskView::CopyJunctions,
            Task::Execute { statement } => TaskView::Execute { statement: statement@ },
            Task::Prune { table } => TaskView::Prune { table: *table },
            Task::Commit => TaskView::Commit,
        }
    }
}

/// Where a session stands: the current task not yet started, a request of
/// the current task awaiting its reply, or finished with a result.
#[derive(Clone, Copy, Debug, PartialEq, Eq, Structural)]
pub enum Stage {
    Start,
    Begin,
    LoadColors,
    NewPalette,
    FindColor,
    InsertColor,
    FindJunction,
    InsertJunction,
    CopyFind(usize),
    CopyInsert(usize),
    Execute,
    PruneList,
    PruneCheck(usize),
    PruneDelete(usize),
    Commit,
    Finished(bool),
}

pub struct Session {
    tasks: Vec<Task>,
    next: usize,
    stage: Stage,
    palette_id: i64,
    color_id: Option<i64>,
    loaded: Vec<i64>,
    candidates: Vec<i64>,
}

pub struct SessionView {
    pub tasks: Seq<TaskView>,
    pub next: int,
    pub stage: Stage,
    pub palette_id: i64,
    pub color_id: Option<i64>,
    pub loaded: Seq<i64>,
    pub candidates: Seq<i64>,
}

pub open spec fn task_views(s: Seq<Task>) -> Seq<TaskView> {
    s.map_values(|t: Task| t@)
}

impl View for Session {
    type V = SessionView;

    closed spec fn view(&self) -> SessionView {
        SessionView {
            tasks: task_views(self.tasks@),
            next: self.next as int,
            stage: self.stage,
            palette_id: self.palette_id,
            color_id: self.color_id,
            loaded: self.loaded@,
            candidates: self.candidates@,
        }
    }
}

// ---------------------------------------------------------------------------
// The protocol

pub open spec fn with_stage(s: SessionView, stage: Stage) -> SessionView {
    SessionView { stage, ..s }
}

/// The session with its current task completed.
pub open spec fn task_done(s: SessionView) -> SessionView {
    SessionView { next: s.next + 1, stage: Stage::Start, ..s }
}

pub open spec fn abort(s: SessionView) -> (SessionView, RequestView) {
    (with_stage(s, Stage::Finished(false)), RequestView::Finish { success: false })
}

/// Starts the current task: the request it makes first, skipping tasks
/// that have nothing to do. Past the last task the session finishes
/// successfully.
pub open spec fn launch(s: SessionView) -> (SessionView, RequestView)
    decreases s.tasks.len() - s.next,
{
    if s.next < 0 || s.next >= s.tasks.len() {
        (with_stage(s, Stage::Finished(true)), RequestView::Finish { success: true })
    } else {
        match s.tasks[s.next] {
            TaskView::LoadPaletteColors { palette_id } => (
                with_stage(s, Stage::LoadColors),
                RequestView::Query {
                    sql: colors_of_palette_text(),
                    params: ParamsView::PaletteId(palette_id),
                },
            ),
            TaskView::Begin => (with_stage(s, Stage::Begin), RequestView::Begin),
            TaskView::NewPalette { name } => (
                with_stage(s, Stage::NewPalette),
                RequestView::Insert { sql: insert_palette_text(), params: ParamsView::Name(name) },
            ),
            TaskView::AddColor { color, required } => (
                with_stage(s, Stage::FindColor),
                RequestView::Query {
                    sql: find_color_text(color.red, color.green, color.blue, color.alpha, color.hex),
                    params: ParamsView::Nothing,
                },
            ),
            TaskView::AddJunction { required } => match s.color_id {
                Some(c) => (
                    with_stage(s, Stage::FindJunction),
                    RequestView::Query {
                        sql: find_junction_text(s.palette_id, c),
                        params: ParamsView::Nothing,
                    },
                ),
                None => launch(task_done(s)),
            },
            TaskView::CopyJunctions => if s.loaded.len() == 0 {
                launch(task_done(s))
            } else {
                (
                    with_stage(s, Stage::CopyFind(0)),
                    RequestView::Query {
                        sql: find_junction_text(s.palette_id, s.loaded[0]),
                        params: ParamsView::Nothing,
                    },
                )
            },
            TaskView::Execute { statement } => (
                with_stage(s, Stage::Execute),
                RequestView::Execute { sql: statement_text(statement) },
            ),
            TaskView::Prune { table } => (
                with_stage(s, Stage::PruneList),
                RequestView::Query { sql: list_ids_text(table), params: ParamsView::Nothing },
            ),
            TaskView::Commit => (with_stage(s, Stage::Commit), RequestView::Commit),
        }
    }
}

/// Whether the current task must succeed for the operation to go on.
pub open spec fn current_required(s: SessionView) -> bool {
    match s.tasks[s.next] {
        TaskView::AddColor { color, required } => required,
        TaskView::AddJunction { required } => required,
        _ => true,
    }
}

/// The table that the current pruning task cleans.
pub open spec fn current_table(s: SessionView) -> Table {
    match s.tasks[s.next] {
        TaskView::Prune { table } => table,
        _ => Table::Colors,
    }
}

/// A failed step of an optional task is passed over; of a required one, it
/// ends the operation unsuccessfully.
pub open spec fn step_failed(s: SessionView) -> (SessionView, RequestView) {
    if current_required(s) {
        abort(s)
    } else {
        launch(task_done(s))
    }
}

/// Linking the `i`th loaded colour, or the next task once all are linked.
pub open spec fn copy_from(s: SessionView, i: int) -> (SessionView, RequestView) {
    if i < s.loaded.len() {
        (
            with_stage(s, Stage::CopyFind(i as usize)),
            RequestView::Query {
                sql: find_junction_text(s.palette_id, s.loaded[i]),
                params: ParamsView::Nothing,
            },
        )
    } else {
        launch(task_done(s))
    }
}

/// Checking the `i`th pruning candidate, or the next task once all are checked.
pub open spec fn prune_from(s: SessionView, i: int) -> (SessionView, RequestView) {
    if i < s.candidates.len() {
        (
            with_stage(s, Stage::PruneCheck(i as usize)),
            RequestView::Query {
                sql: junctions_of_text(current_table(s), s.candidates[i]),
                params: ParamsView::Nothing,
            },
        )
    } else {
        launch(task_done(s))
    }
}

/// The session's next state and request, given the reply to its last
/// request. A reply of another kind than the request calls for counts as a
/// failure.
pub open spec fn step(s: SessionView, reply: ReplyView) -> (SessionView, RequestView) {
    match s.stage {
        Stage::Start => launch(s),
        Stage::Finished(b) => (s, RequestView::Finish { success: b }),
        Stage::Begin => match reply {
            ReplyView::Done => launch(task_done(s)),
            _ => abort(s),
        },
        Stage::LoadColors => match reply {
            ReplyView::Ids(v) => if v.len() > 0 {
                launch(task_done(SessionView { loaded: v, ..s }))
            } else {
                abort(s)
            },
            _ => abort(s),
        },
        Stage::NewPalette => match reply {
            ReplyView::RowId(id) => launch(task_done(SessionView { palette_id: id, ..s })),
            _ => abort(s),
        },
        Stage::FindColor => match reply {
            ReplyView::Ids(v) => if v.len() > 0 {
                launch(task_done(SessionView { color_id: Some(v[0]), ..s }))
            } else {
                match s.tasks[s.next] {
                    TaskView::AddColor { color, required } => (
                        with_stage(s, Stage::InsertColor),
                        RequestView::Insert {
                            sql: insert_color_text(),
                            params: ParamsView::Color(color),
                        },
                    ),
                    _ => abort(s),
                }
            },
            _ => step_failed(SessionView { color_id: None, ..s }),
        },
        Stage::InsertColor => match reply {
            ReplyView::RowId(id) => launch(task_done(SessionView { color_id: Some(id), ..s })),
            _ => step_failed(SessionView { color_id: None, ..s }),
        },
        Stage::FindJunction => match reply {
            ReplyView::Ids(v) => if v.len() > 0 {
                launch(task_done(s))
            } else {
                match s.color_id {
                    Some(c) => (
                        with_stage(s, Stage::InsertJunction),
                        RequestView::Insert {
                            sql: insert_junction_text(),
                            params: ParamsView::Junction(s.palette_id, c),
                        },
                    ),
                    None => abort(s),
                }
            },
            _ => step_failed(s),
        },
        Stage::InsertJunction => match reply {
            ReplyView::RowId(id) => launch(task_done(s)),
            _ => step_failed(s),
        },
        Stage::CopyFind(i) => match reply {
            ReplyView::Ids(v) => if v.len() == 0 && i < s.loaded.len() {
                (
                    with_stage(s, Stage::CopyInsert(i)),
                    RequestView::Insert {
                        sql: insert_junction_text(),
                        params: ParamsView::Junction(s.palette_id, s.loaded[i as int]),
                    },
                )
            } else {
                copy_from(s, i + 1)
            },
            _ => copy_from(s, i + 1),
        },
        Stage::CopyInsert(i) => copy_from(s, i + 1),
        Stage::Execute => match reply {
            ReplyView::Done => launch(task_done(s)),
            _ => abort(s),
        },
        Stage::PruneList => match reply {
            ReplyView::Ids(v) => prune_from(SessionView { candidates: v, ..s }, 0),
            _ => abort(s),
        },
        Stage::PruneCheck(i) => match reply {
            ReplyView::Ids(v) => if v.len() == 0 && i < s.candidates.len() {
                (
                    with_stage(s, Stage::PruneDelete(i)),
                    RequestView::Execute {
                        sql: delete_row_text(current_table(s), s.candidates[i as int]),
                    },
                )
            } else {
                prune_from(s, i + 1)
            },
            _ => abort(s),
        },
        Stage::PruneDelete(i) => match reply {
            ReplyView::Done => prune_from(s, i + 1),
            _ => abort(s),
        },
        Stage::Commit => match reply {
            ReplyView::Done => (
                with_stage(s, Stage::Finished(true)),
                RequestView::Finish { success: true },
            ),
            _ => (with_stage(s, Stage::Finished(false)), RequestView::Finish { success: false }),
        },
    }
}


/// What the session's fields allow: the stage awaits a reply that the
/// current task can receive, and the positions it names exist.
pub open spec fn well_formed(s: SessionView) -> bool {
    &&& 0 <= s.next <= s.tasks.len()
    &&& match s.stage {
        Stage::Start => true,
        Stage::Finished(_) => true,
        Stage::Begin => s.next < s.tasks.len() && s.tasks[s.next] is Begin,
        Stage::LoadColors => s.next < s.tasks.len() && s.tasks[s.next] is LoadPaletteColors,
        Stage::NewPalette => s.next < s.tasks.len() && s.tasks[s.next] is NewPalette,
        Stage::FindColor => s.next < s.tasks.len() && s.tasks[s.next] is AddColor,
        Stage::InsertColor => s.next < s.tasks.len() && s.tasks[s.next] is AddColor,
        Stage::FindJunction => s.next < s.tasks.len() && s.tasks[s.next] is AddJunction
            && s.color_id is Some,
        Stage::InsertJunction => s.next < s.tasks.len() && s.tasks[s.next] is AddJunction
            && s.color_id is Some,
        Stage::CopyFind(i) => s.next < s.tasks.len() && s.tasks[s.next] is CopyJunctions && i
            < s.loaded.len(),
        Stage::CopyInsert(i) => s.next < s.tasks.len() && s.tasks[s.next] is CopyJunctions && i
            < s.loaded.len(),
        Stage::Execute => s.next < s.tasks.len() && s.tasks[s.next] is Execute,
        Stage::PruneList => s.next < s.tasks.len() && s.tasks[s.next] is Prune,
        Stage::PruneCheck(i) => s.next < s.tasks.len() && s.tasks[s.next] is Prune && i
            < s.candidates.len(),
        Stage::PruneDelete(i) => s.next < s.tasks.len() && s.tasks[s.next] is Prune && i
            < s.candidates.len(),
        Stage::Commit => s.next < s.tasks.len() && s.tasks[s.next] is Commit,
    }
}

/// A session about to start the first task of a plan.
pub open spec fn initial(tasks: Seq<TaskView>, palette_id: i64) -> SessionView {
    SessionView {
        tasks,
        next: 0,
        stage: Stage::Start,
        palette_id,
        color_id: None,
        loaded: Seq::empty(),
        candidates: Seq::empty(),
    }
}

pub proof fn lemma_launch_well_formed(s: SessionView)
    requires
        0 <= s.next <= s.tasks.len(),
    ensures
        well_formed(launch(s).0),
    decreases s.tasks.len() - s.next,
{
    if s.next < s.tasks.len() {
        match s.tasks[s.next] {
            TaskView::AddJunction { required } => {
                if s.color_id is None {
                    lemma_launch_well_formed(task_done(s));
                }
            },
            TaskView::CopyJunctions => {
                if s.loaded.len() == 0 {
                    lemma_launch_well_formed(task_done(s));
                }
            },
            _ => {},
        }
    }
}

impl Session {
    pub closed spec fn wf(&self) -> bool {
        &&& well_formed(self@)
        &&& self.tasks@.len() == task_views(self.tasks@).len()
    }

    fn with_plan(tasks: Vec<Task>, palette_id: i64) -> (s: Session)
        ensures
            s@ == initial(task_views(tasks@), palette_id),
            s.wf(),
    {
        Session {
            tasks,
            next: 0,
            stage: Stage::Start,
            palette_id,
            color_id: None,
            loaded: Vec::new(),
            candidates: Vec::new(),
        }
    }

    /// Starts the current task, passing over those with nothing to do.
    fn launch(&mut self) -> (r: Request)
        requires
            old(self).next <= old(self).tasks@.len(),
        ensures
            (final(self)@, r@) == launch(old(self)@),
            final(self).tasks@ == old(self).tasks@,
    {
        let ghost target = launch(self@);
        loop
            invariant
                self.next <= self.tasks@.len(),
                launch(self@) == target,
                target == launch(old(self)@),
                self.tasks@ == old(self).tasks@,
            decreases self.tasks@.len() - self.next,
        {
            if self.next >= self.tasks.len() {
                self.stage = Stage::Finished(true);
                return Request::Finish { success: true };
            }
            let i: usize = self.next;
            assert(self@.tasks[i as int] == self.tasks@[i as int]@);
            let launched: Option<(Stage, Request)> = match &self.tasks[i] {
                Task::LoadPaletteColors { palette_id } => Some(
                    (
                        Stage::LoadColors,
                        Request::Query {
                            sql: crate::sql::select_colors_of_palette(),
                            params: Params::PaletteId(*palette_id),
                        },
                    ),
                ),
                Task::Begin => Some((Stage::Begin, Request::Begin)),
                Task::NewPalette { name } => Some(
                    (
                        Stage::NewPalette,
                        Request::Insert {
                            sql: crate::sql::insert_palette(),
                            params: Params::Name(name.clone()),
                        },
                    ),
                ),
                Task::AddColor { color, required } => Some(
                    (
                        Stage::FindColor,
                        Request::Query {
                            sql: crate::sql::find_color(
                                color.red,
                                color.green,
                                color.blue,
                                color.alpha.as_str(),
                                color.hex.as_str(),
                            ),
                            params: Params::Nothing,
                        },
                    ),
                ),
                Task::AddJunction { required } => match self.color_id {
                    Some(c) => Some(
                        (
                            Stage::FindJunction,
                            Request::Query {
                                sql: crate::sql::find_junction(self.palette_id, c),
                                params: Params::Nothing,
                            },
                        ),
                    ),
                    None => None,
                },
                Task::CopyJunctions => if self.loaded.len() == 0 {
                    None
                } else {
                    Some(
                        (
                            Stage::CopyFind(0),
                            Request::Query {
                                sql: crate::sql::find_junction(self.palette_id, self.loaded[0]),
                                params: Params::Nothing,
                            },
                        ),
                    )
                },
                Task::Execute { statement } => Some(
                    (Stage::Execute, Request::Execute { sql: statement_sql(statement) }),
                ),
                Task::Prune { table } => Some(
                    (
                        Stage::PruneList,
                        Request::Query {
                            sql: crate::sql::list_ids(*table),
                            params: Params::Nothing,
                        },
                    ),
                ),
                Task::Commit => Some((Stage::Commit, Request::Commit)),
            };
            match launched {
                Some((stage, r)) => {
                    self.stage = stage;
                    return r;
                },
                None => {
                    self.next = i + 1;
                    self.stage = Stage::Start;
                },
            }
        }
    }

    /// Completes the current task and starts the next.
    fn finish_task(&mut self) -> (r: Request)
        requires
            old(self).next < old(self).tasks@.len(),
        ensures
            (final(self)@, r@) == launch(task_done(old(self)@)),
            final(self).tasks@ == old(self).tasks@,
    {
        let n: usize = self.tasks.len();
        assert(self.next < n);
        self.next = self.next + 1;
        self.stage = Stage::Start;
        self.launch()
    }

    fn abort(&mut self) -> (r: Request)
        ensures
            (final(self)@, r@) == abort(old(self)@),
            final(self).tasks@ == old(self).tasks@,
    {
        self.stage = Stage::Finished(false);
        Request::Finish { success: false }
    }

    fn is_required(&self) -> (b: bool)
        requires
            self.next < self.tasks@.len(),
        ensures
            b == current_required(self@),
    {
        assert(self@.tasks[self.next as int] == self.tasks@[self.next as int]@);
        match &self.tasks[self.next] {
            Task::AddColor { color, required } => *required,
            Task::AddJunction { required } => *required,
            _ => true,
        }
    }

    fn table(&self) -> (t: Table)
        requires
            self.next < self.tasks@.len(),
        ensures
            t == current_table(self@),
    {
        assert(self@.tasks[self.next as int] == self.tasks@[self.next as int]@);
        match &self.tasks[self.next] {
            Task::Prune { table } => *table,
            _ => Table::Colors,
        }
    }

    fn step_failed(&mut self) -> (r: Request)
        requires
            old(self).next < old(self).tasks@.len(),
        ensures
            (final(self)@, r@) == step_failed(old(self)@),
            final(self).tasks@ == old(self).tasks@,
    {
        if self.is_required() {
            self.abort()
        } else {
            self.finish_task()
        }
    }

    fn copy_from(&mut self, i: usize) -> (r: Request)
        requires
            old(self).next < old(self).tasks@.len(),
        ensures
            (final(self)@, r@) == copy_from(old(self)@, i as int),
            final(self).tasks@ == old(self).tasks@,
    {
        if i < self.loaded.len() {
            self.stage = Stage::CopyFind(i);
            Request::Query {
                sql: crate::sql::find_junction(self.palette_id, self.loaded[i]),
                params: Params::Nothing,
            }
        } else {
            self.finish_task()
        }
    }

    fn prune_from(&mut self, i: usize) -> (r: Request)
        requires
            old(self).next < old(self).tasks@.len(),
        ensures
            (final(self)@, r@) == prune_from(old(self)@, i as int),
            final(self).tasks@ == old(self).tasks@,
    {
        if i < self.candidates.len() {
            let t = self.table();
            self.stage = Stage::PruneCheck(i);
            Request::Query {
                sql: crate::sql::junctions_of(t, self.candidates[i]),
                params: Params::Nothing,
            }
        } else {
            self.finish_task()
        }
    }

    /// Takes the reply to the last request and returns the next request.
    /// The reply given with the first call is not looked at.
    pub fn advance(&mut self, reply: Reply) -> (r: Request)
        requires
            old(self).wf(),
        ensures
            final(self).wf(),
            (final(self)@, r@) == step(old(self)@, reply@),
    {
        let ghost s0 = self@;
        let r = match self.stage {
            Stage::Start => self.launch(),
            Stage::Finished(b) => Request::Finish { success: b },
            Stage::Begin => match reply {
                Reply::Done => self.finish_task(),
                _ => self.abort(),
            },
            Stage::LoadColors => match reply {
                Reply::Ids(v) => if v.len() > 0 {
                    self.loaded = v;
                    self.finish_task()
                } else {
                    self.abort()
                },
                _ => self.abort(),
            },
            Stage::NewPalette => match reply {
                Reply::RowId(id) => {
                    self.palette_id = id;
                    self.finish_task()
                },
                _ => self.abort(),
            },
            Stage::FindColor => match reply {
                Reply::Ids(v) => if v.len() > 0 {
                    self.color_id = Some(v[0]);
                    self.finish_task()
                } else {
                    assert(self@.tasks[self.next as int] == self.tasks@[self.next as int]@);
                    let spec_copy: Option<ColorSpec> = match &self.tasks[self.next] {
                        Task::AddColor { color, required } => Some(color.copy()),
                        _ => None,
                    };
                    match spec_copy {
                        Some(c) => {
                            self.stage = Stage::InsertColor;
                            Request::Insert {
                                sql: crate::sql::insert_color(),
                                params: Params::Color(c),
                            }
                        },
                        None => self.abort(),
                    }
                },
                _ => {
                    self.color_id = None;
                    self.step_failed()
                },
            },
            Stage::InsertColor => match reply {
                Reply::RowId(id) => {
                    self.color_id = Some(id);
                    self.finish_task()
                },
                _ => {
                    self.color_id = None;
                    self.step_failed()
                },
            },
            Stage::FindJunction => match reply {
                Reply::Ids(v) => if v.len() > 0 {
                    self.finish_task()
                } else {
                    match self.color_id {
                        Some(c) => {
                            self.stage = Stage::InsertJunction;
                            Request::Insert {
                                sql: crate::sql::insert_junction(),
                                params: Params::Junction(self.palette_id, c),
                            }
                        },
                        None => self.abort(),
                    }
                },
                _ => self.step_failed(),
            },
            Stage::InsertJunction => match reply {
                Reply::RowId(_) => self.finish_task(),
                _ => self.step_failed(),
            },
            Stage::CopyFind(i) => match reply {
                Reply::Ids(v) => if v.len() == 0 && i < self.loaded.len() {
                    self.stage = Stage::CopyInsert(i);
                    Request::Insert {
                        sql: crate::sql::insert_junction(),
                        params: Params::Junction(self.palette_id, self.loaded[i]),
                    }
                } else {
                    let n: usize = self.loaded.len();
                    assert(i < n);
                    self.copy_from(i + 1)
                },
                _ => {
                    let n: usize = self.loaded.len();
                    assert(i < n);
                    self.copy_from(i + 1)
                },
            },
            Stage::CopyInsert(i) => {
                let n: usize = self.loaded.len();
                assert(i < n);
                self.copy_from(i + 1)
            },
            Stage::Execute => match reply {
                Reply::Done => self.finish_task(),
                _ => self.abort(),
            },
            Stage::PruneList => match reply {
                Reply::Ids(v) => {
                    self.candidates = v;
                    self.prune_from(0)
                },
                _ => self.abort(),
            },
            Stage::PruneCheck(i) => match reply {
                Reply::Ids(v) => if v.len() == 0 && i < self.candidates.len() {
                    let t = self.table();
                    self.stage = Stage::PruneDelete(i);
                    Request::Execute { sql: crate::sql::delete_row(t, self.candidates[i]) }
                } else {
                    let n: usize = self.candidates.len();
                    assert(i < n);
                    self.prune_from(i + 1)
                },
                _ => self.abort(),
            },
            Stage::PruneDelete(i) => match reply {
                Reply::Done => {
                    let n: usize = self.candidates.len();
                    assert(i < n);
                    self.prune_from(i + 1)
                },
                _ => self.abort(),
            },
            Stage::Commit => match reply {
                Reply::Done => {
                    self.stage = Stage::Finished(true);
                    Request::Finish { success: true }
                },
                _ => {
                    self.stage = Stage::Finished(false);
                    Request::Finish { success: false }
                },
            },
        };
        proof {
            lemma_step_well_formed(s0, reply@);
        }
        r
    }
}

/// Every step keeps a session well formed.
pub proof fn lemma_step_well_formed(s: SessionView, reply: ReplyView)
    requires
        well_formed(s),
    ensures
        well_formed(step(s, reply).0),
{
    match s.stage {
        Stage::Start => lemma_launch_well_formed(s),
        Stage::Finished(_) => {},
        _ => {
            lemma_launch_well_formed(task_done(s));
            lemma_launch_well_formed(task_done(SessionView { color_id: None, ..s }));
            match reply {
                ReplyView::Ids(v) => {
                    lemma_launch_well_formed(task_done(SessionView { loaded: v, ..s }));
                    if v.len() > 0 {
                        lemma_launch_well_formed(task_done(SessionView { color_id: Some(v[0]), ..s }));
                    }
                    lemma_launch_well_formed(task_done(SessionView { candidates: v, ..s }));
                },
                ReplyView::RowId(id) => {
                    lemma_launch_well_formed(task_done(SessionView { palette_id: id, ..s }));
                    lemma_launch_well_formed(task_done(SessionView { color_id: Some(id), ..s }));
                },
                _ => {},
            }
        },
    }
}

// ---------------------------------------------------------------------------
// The operations

pub open spec fn extracted_views(v: Seq<ExtractedColor>) -> Seq<ExtractedColorView> {
    v.map_values(|c: ExtractedColor| c@)
}

/// The colour row an extracted colour is saved as.
pub open spec fn extracted_spec(c: ExtractedColorView) -> ColorSpecView {
    ColorSpecView {
        red: c.rgb.0 as i64,
        green: c.rgb.1 as i64,
        blue: c.rgb.2 as i64,
        alpha: opaque_alpha(),
        hex: c.hex_name,
    }
}

/// For each extracted colour, in order: find or add it, then link it; both
/// may fail without ending the operation.
pub open spec fn extracted_color_tasks(cs: Seq<ExtractedColorView>) -> Seq<TaskView>
    decreases cs.len(),
{
    if cs.len() == 0 {
        Seq::empty()
    } else {
        extracted_color_tasks(cs.drop_last()) + seq![
            TaskView::AddColor { color: extracted_spec(cs.last()), required: false },
            TaskView::AddJunction { required: false },
        ]
    }
}

pub open spec fn rgba_spec(hex: Seq<char>, rgba: (i64, i64, i64, Seq<char>)) -> ColorSpecView {
    ColorSpecView { red: rgba.0, green: rgba.1, blue: rgba.2, alpha: rgba.3, hex }
}

/// A new palette holding the extracted colours, each found or added and
/// then linked, a failure of either passed over; then commit.
pub open spec fn extracted_palette_session(name: Seq<char>, cs: Seq<ExtractedColorView>) -> SessionView {
    initial(
        seq![TaskView::Begin, TaskView::NewPalette { name }] + extracted_color_tasks(cs) + seq![
            TaskView::Commit,
        ],
        0,
    )
}

/// Loading a palette's colours, then a new palette linked to each of them.
pub open spec fn duplicate_palette_session(palette_id: i64, name: Seq<char>) -> SessionView {
    initial(
        seq![
            TaskView::LoadPaletteColors { palette_id },
            TaskView::Begin,
            TaskView::NewPalette { name },
            TaskView::CopyJunctions,
            TaskView::Commit,
        ],
        0,
    )
}

/// Linking a colour to a palette: find or add the colour, link it unless
/// already linked, commit.
pub open spec fn add_color_to_palette_session(palette_id: i64, color: ColorSpecView) -> SessionView {
    initial(
        seq![
            TaskView::Begin,
            TaskView::AddColor { color, required: true },
            TaskView::AddJunction { required: true },
            TaskView::Commit,
        ],
        palette_id,
    )
}

/// Renaming a palette, then pruning colours and palettes.
pub open spec fn rename_palette_session(palette_id: i64, name: Seq<char>) -> SessionView {
    initial(
        seq![
            TaskView::Begin,
            TaskView::Execute { statement: StatementView::Rename { palette_id, name } },
            TaskView::Prune { table: Table::Colors },
            TaskView::Prune { table: Table::Palettes },
            TaskView::Commit,
        ],
        0,
    )
}

/// Unlinking a colour from a palette, then pruning colours and palettes.
pub open spec fn remove_color_from_palette_session(color_id: i64, palette_id: i64) -> SessionView {
    initial(
        seq![
            TaskView::Begin,
            TaskView::Execute { statement: StatementView::RemoveColor { color_id, palette_id } },
            TaskView::Prune { table: Table::Colors },
            TaskView::Prune { table: Table::Palettes },
            TaskView::Commit,
        ],
        0,
    )
}

/// Deleting a palette and its links, then pruning colours.
pub open spec fn delete_palette_session(palette_id: i64) -> SessionView {
    initial(
        seq![
            TaskView::Begin,
            TaskView::Execute { statement: StatementView::UnlinkPalette { palette_id } },
            TaskView::Execute { statement: StatementView::DeletePalette { palette_id } },
            TaskView::Prune { table: Table::Colors },
            TaskView::Commit,
        ],
        0,
    )
}

impl Session {
    /// A new palette named `palette_name` holding one colour (found, or added
    /// when missing), all in one transaction.
    pub fn add_palette_new(palette_name: String, hex: String, rgba: (i64, i64, i64, String)) -> (s:
        Session)
        ensures
            s.wf(),
            s@ == initial(
                seq![
                    TaskView::Begin,
                    TaskView::NewPalette { name: palette_name@ },
                    TaskView::AddColor {
                        color: rgba_spec(hex@, (rgba.0, rgba.1, rgba.2, rgba.3@)),
                        required: true,
                    },
                    TaskView::AddJunction { required: true },
                    TaskView::Commit,
                ],
                0,
            ),
    {
        let ghost spec = rgba_spec(hex@, (rgba.0, rgba.1, rgba.2, rgba.3@));
        let color = ColorSpec { red: rgba.0, green: rgba.1, blue: rgba.2, alpha: rgba.3, hex };
        let mut v: Vec<Task> = Vec::new();
        v.push(Task::Begin);
        v.push(Task::NewPalette { name: palette_name });
        v.push(Task::AddColor { color, required: true });
        v.push(Task::AddJunction { required: true });
        v.push(Task::Commit);
        assert(task_views(v@) =~= seq![
            TaskView::Begin,
            TaskView::NewPalette { name: palette_name@ },
            TaskView::AddColor { color: spec, required: true },
            TaskView::AddJunction { required: true },
            TaskView::Commit,
        ]);
        Session::with_plan(v, 0)
    }

    /// A new palette holding the extracted colours, in one transaction. A
    /// colour that cannot be found or added, or linked, is passed over.
    pub fn add_palette_from_extracted(palette_name: String, colors: &Vec<ExtractedColor>) -> (s:
        Session)
        ensures
            s.wf(),
            s@ == extracted_palette_session(palette_name@, extracted_views(colors@)),
    {
        let mut v: Vec<Task> = Vec::new();
        v.push(Task::Begin);
        v.push(Task::NewPalette { name: palette_name });
        let ghost head = seq![TaskView::Begin, TaskView::NewPalette { name: palette_name@ }];
        assert(task_views(v@) =~= head + extracted_color_tasks(
            extracted_views(colors@).take(0),
        ));
        let mut i: usize = 0;
        while i < colors.len()
            invariant
                i <= colors@.len(),
                task_views(v@) == head + extracted_color_tasks(
                    extracted_views(colors@).take(i as int),
                ),
            decreases colors@.len() - i,
        {
            let c = &colors[i];
            let rgb = c.rgb_tuple();
            let spec = ColorSpec {
                red: rgb.0 as i64,
                green: rgb.1 as i64,
                blue: rgb.2 as i64,
                alpha: c.alpha_text(),
                hex: c.hex_name(),
            };
            let ghost before = task_views(v@);
            v.push(Task::AddColor { color: spec, required: false });
            v.push(Task::AddJunction { required: false });
            proof {
                let cs = extracted_views(colors@).take(i + 1);
                assert(cs.drop_last() =~= extracted_views(colors@).take(i as int));
                assert(cs.last() == colors@[i as int]@);
                assert(task_views(v@) =~= before + seq![
                    TaskView::AddColor { color: extracted_spec(colors@[i as int]@), required: false },
                    TaskView::AddJunction { required: false },
                ]);
            }
            i = i + 1;
        }
        let ghost body = task_views(v@);
        v.push(Task::Commit);
        assert(extracted_views(colors@).take(colors@.len() as int) =~= extracted_views(colors@));
        assert(task_views(v@) =~= body + seq![TaskView::Commit]);
        Session::with_plan(v, 0)
    }

    /// A copy of a palette under a new name, linked to the same colours. It
    /// fails without starting a transaction when the palette has no colours
    /// or they cannot be read; a link that fails is passed over.
    pub fn duplicate_palette(palette_id: i64, duplicate_name: String) -> (s: Session)
        ensures
            s.wf(),
            s@ == duplicate_palette_session(palette_id, duplicate_name@),
    {
        let mut v: Vec<Task> = Vec::new();
        v.push(Task::LoadPaletteColors { palette_id });
        v.push(Task::Begin);
        v.push(Task::NewPalette { name: duplicate_name });
        v.push(Task::CopyJunctions);
        v.push(Task::Commit);
        assert(task_views(v@) =~= seq![
            TaskView::LoadPaletteColors { palette_id },
            TaskView::Begin,
            TaskView::NewPalette { name: duplicate_name@ },
            TaskView::CopyJunctions,
            TaskView::Commit,
        ]);
        Session::with_plan(v, 0)
    }

    /// A colour (found, or added when missing) linked to an existing palette,
    /// in one transaction.
    pub fn add_color_to_palette(palette_id: i64, hex: String, rgba: (i64, i64, i64, String)) -> (s:
        Session)
        ensures
            s.wf(),
            s@ == add_color_to_palette_session(
                palette_id,
                rgba_spec(hex@, (rgba.0, rgba.1, rgba.2, rgba.3@)),
            ),
    {
        let ghost spec = rgba_spec(hex@, (rgba.0, rgba.1, rgba.2, rgba.3@));
        let color = ColorSpec { red: rgba.0, green: rgba.1, blue: rgba.2, alpha: rgba.3, hex };
        let mut v: Vec<Task> = Vec::new();
        v.push(Task::Begin);
        v.push(Task::AddColor { color, required: true });
        v.push(Task::AddJunction { required: true });
        v.push(Task::Commit);
        assert(task_views(v@) =~= seq![
            TaskView::Begin,
            TaskView::AddColor { color: spec, required: true },
            TaskView::AddJunction { required: true },
            TaskView::Commit,
        ]);
        Session::with_plan(v, palette_id)
    }

    /// Renames a palette, then prunes unlinked colours and palettes, in one
    /// transaction.
    pub fn rename_palette(palette_id: i64, new_name: String) -> (s: Session)
        ensures
            s.wf(),
            s@ == rename_palette_session(palette_id, new_name@),
    {
        let ghost name = new_name@;
        let mut v: Vec<Task> = Vec::new();
        v.push(Task::Begin);
        v.push(Task::Execute { statement: Statement::Rename { palette_id, name: new_name } });
        v.push(Task::Prune { table: Table::Colors });
        v.push(Task::Prune { table: Table::Palettes });
        v.push(Task::Commit);
        assert(task_views(v@) =~= seq![
            TaskView::Begin,
            TaskView::Execute { statement: StatementView::Rename { palette_id, name } },
            TaskView::Prune { table: Table::Colors },
            TaskView::Prune { table: Table::Palettes },
            TaskView::Commit,
        ]);
        Session::with_plan(v, 0)
    }

    /// Unlinks a colour from a palette, then prunes unlinked colours and
    /// palettes, in one transaction.
    pub fn remove_color_from_palette(color_id: i64, palette_id: i64) -> (s: Session)
        ensures
            s.wf(),
            s@ == remove_color_from_palette_session(color_id, palette_id),
    {
        let mut v: Vec<Task> = Vec::new();
        v.push(Task::Begin);
        v.push(Task::Execute { statement: Statement::RemoveColor { color_id, palette_id } });
        v.push(Task::Prune { table: Table::Colors });
        v.push(Task::Prune { table: Table::Palettes });
        v.push(Task::Commit);
        assert(task_views(v@) =~= seq![
            TaskView::Begin,
            TaskView::Execute { statement: StatementView::RemoveColor { color_id, palette_id } },
            TaskView::Prune { table: Table::Colors },
            TaskView::Prune { table: Table::Palettes },
            TaskView::Commit,
        ]);
        Session::with_plan(v, 0)
    }

    /// Deletes a palette and its links, then prunes unlinked colours, in one
    /// transaction.
    pub fn delete_palette(palette_id: i64) -> (s: Session)
        ensures
            s.wf(),
            s@ == delete_palette_session(palette_id),
    {
        let mut v: Vec<Task> = Vec::new();
        v.push(Task::Begin);
        v.push(Task::Execute { statement: Statement::UnlinkPalette { palette_id } });
        v.push(Task::Execute { statement: Statement::DeletePalette { palette_id } });
        v.push(Task::Prune { table: Table::Colors });
        v.push(Task::Commit);
        assert(task_views(v@) =~= seq![
            TaskView::Begin,
            TaskView::Execute { statement: StatementView::UnlinkPalette { palette_id } },
            TaskView::Execute { statement: StatementView::DeletePalette { palette_id } },
            TaskView::Prune { table: Table::Colors },
            TaskView::Commit,
        ]);
        Session::with_plan(v, 0)
    }
}

// ---------------------------------------------------------------------------
// Properties of the protocol

/// A plan that is still running and ends with its commit.
pub open spec fn in_progress(s: SessionView) -> bool {
    &&& well_formed(s)
    &&& s.tasks.len() > 0
    &&& s.tasks.last() is Commit
    &&& s.next < s.tasks.len()
    &&& s.stage !is Finished
}

/// Starting tasks never runs past a final commit, and keeps the palette,
/// the colour and the loaded ids.
pub proof fn lemma_launch_stops_at_commit(s: SessionView)
    requires
        0 <= s.next < s.tasks.len(),
        s.tasks.last() is Commit,
    ensures
        launch(s).0.stage !is Finished,
        launch(s).0.stage !is Start,
        launch(s).0.next < s.tasks.len(),
        launch(s).0.tasks == s.tasks,
        launch(s).0.palette_id == s.palette_id,
        launch(s).0.color_id == s.color_id,
        launch(s).1 !is Finish,
    decreases s.tasks.len() - s.next,
{
    if s.next == s.tasks.len() - 1 {
        assert(s.tasks[s.next] is Commit);
    } else {
        match s.tasks[s.next] {
            TaskView::AddJunction { required } => {
                if s.color_id is None {
                    lemma_launch_stops_at_commit(task_done(s));
                }
            },
            TaskView::CopyJunctions => {
                if s.loaded.len() == 0 {
                    lemma_launch_stops_at_commit(task_done(s));
                }
            },
            _ => {},
        }
    }
}

/// Every task that a step may start next, in a plan still in progress, stops
/// at or before the final commit.
proof fn lemma_step_launches_stop_at_commit(s: SessionView, reply: ReplyView)
    requires
        in_progress(s),
    ensures
        step(s, reply).0.tasks == s.tasks,
        step(s, reply).0.stage is Finished || (step(s, reply).0.next < s.tasks.len()
            && step(s, reply).0.stage !is Start),
        step(s, reply).1 == (RequestView::Finish { success: true }) ==> s.stage == Stage::Commit
            && reply == ReplyView::Done,
{
    lemma_launch_stops_at_commit(s);
    assert(s.tasks.last() == s.tasks[s.tasks.len() - 1]);
    if s.stage != Stage::Start && s.stage != Stage::Commit && s.next + 1 < s.tasks.len() {
        lemma_launch_stops_at_commit(task_done(s));
        lemma_launch_stops_at_commit(task_done(SessionView { color_id: None, ..s }));
        match reply {
            ReplyView::Ids(v) => {
                lemma_launch_stops_at_commit(task_done(SessionView { loaded: v, ..s }));
                lemma_launch_stops_at_commit(task_done(SessionView { candidates: v, ..s }));
                if v.len() > 0 {
                    lemma_launch_stops_at_commit(
                        task_done(SessionView { color_id: Some(v[0]), ..s }),
                    );
                }
            },
            ReplyView::RowId(id) => {
                lemma_launch_stops_at_commit(task_done(SessionView { palette_id: id, ..s }));
                lemma_launch_stops_at_commit(task_done(SessionView { color_id: Some(id), ..s }));
            },
            _ => {},
        }
    }
}

/// An operation reports success only in answer to a successful commit.
pub proof fn success_only_after_commit(s: SessionView, reply: ReplyView)
    requires
        in_progress(s),
    ensures
        step(s, reply).1 == (RequestView::Finish { success: true }) ==> s.stage == Stage::Commit
            && reply == ReplyView::Done,
{
    lemma_step_launches_stop_at_commit(s, reply);
}

/// A commit that succeeds ends the operation successfully; one that fails
/// ends it unsuccessfully.
pub proof fn commit_decides(s: SessionView, reply: ReplyView)
    requires
        s.stage == Stage::Commit,
    ensures
        step(s, reply).1 == (RequestView::Finish { success: reply == ReplyView::Done }),
        step(s, reply).0.stage == Stage::Finished(reply == ReplyView::Done),
{
}

/// A failed step of a required task ends the operation unsuccessfully,
/// without a commit.
pub proof fn required_failure_aborts(s: SessionView)
    requires
        well_formed(s),
        s.stage !is Start,
        s.stage !is Finished,
        s.stage !is Commit,
        s.stage !is CopyFind,
        s.stage !is CopyInsert,
        current_required(s),
    ensures
        step(s, ReplyView::Failed).1 == (RequestView::Finish { success: false }),
        step(s, ReplyView::Failed).0.stage == Stage::Finished(false),
{
}

/// A failed step of an optional task (saving one extracted colour, or
/// linking it) gives up on that task only: the operation goes on with the
/// next task.
pub proof fn optional_failure_continues(s: SessionView)
    requires
        well_formed(s),
        s.stage == Stage::FindColor || s.stage == Stage::InsertColor || s.stage
            == Stage::FindJunction || s.stage == Stage::InsertJunction,
        !current_required(s),
    ensures
        step(s, ReplyView::Failed) == launch(
            task_done(
                if s.stage == Stage::FindColor || s.stage == Stage::InsertColor {
                    SessionView { color_id: None, ..s }
                } else {
                    s
                },
            ),
        ),
{
}

/// Adding a colour reuses the first existing colour with the same values:
/// it becomes the current colour and no colour row is inserted.
pub proof fn existing_color_reused(s: SessionView, ids: Seq<i64>)
    requires
        in_progress(s),
        s.stage == Stage::FindColor,
        ids.len() > 0,
    ensures
        step(s, ReplyView::Ids(ids)) == launch(
            task_done(SessionView { color_id: Some(ids[0]), ..s }),
        ),
        step(s, ReplyView::Ids(ids)).0.color_id == Some(ids[0]),
{
    lemma_launch_stops_at_commit(task_done(SessionView { color_id: Some(ids[0]), ..s }));
}

/// A missing colour is inserted with exactly the values of the task.
pub proof fn missing_color_inserted(s: SessionView)
    requires
        well_formed(s),
        s.stage == Stage::FindColor,
    ensures
        step(s, ReplyView::Ids(Seq::empty())).1 == (RequestView::Insert {
            sql: insert_color_text(),
            params: ParamsView::Color(s.tasks[s.next]->color),
        }),
{
}

/// A colour is linked to the palette only when no link between them exists.
pub proof fn junction_not_duplicated(s: SessionView, ids: Seq<i64>)
    requires
        well_formed(s),
        s.stage == Stage::FindJunction,
    ensures
        ids.len() > 0 ==> step(s, ReplyView::Ids(ids)) == launch(task_done(s)),
        ids.len() == 0 ==> step(s, ReplyView::Ids(ids)).1 == (RequestView::Insert {
            sql: insert_junction_text(),
            params: ParamsView::Junction(s.palette_id, s.color_id.unwrap()),
        }),
{
}

/// Pruning deletes a row exactly when no junction row names it.
pub proof fn prune_deletes_unlinked_rows(s: SessionView, ids: Seq<i64>, i: usize)
    requires
        well_formed(s),
        s.stage == Stage::PruneCheck(i),
    ensures
        ids.len() == 0 ==> step(s, ReplyView::Ids(ids)).1 == (RequestView::Execute {
            sql: delete_row_text(current_table(s), s.candidates[i as int]),
        }),
        ids.len() > 0 ==> step(s, ReplyView::Ids(ids)) == prune_from(s, i + 1),
{
}

/// Every row listed at the start of a pruning pass is checked, in order.
pub proof fn prune_checks_every_row(s: SessionView, ids: Seq<i64>)
    requires
        well_formed(s),
        s.stage == Stage::PruneList,
    ensures
        ids.len() > 0 ==> step(s, ReplyView::Ids(ids)).0.stage == Stage::PruneCheck(0)
            && step(s, ReplyView::Ids(ids)).0.candidates == ids,
        ids.len() > 0 ==> step(s, ReplyView::Ids(ids)).1 == (RequestView::Query {
            sql: junctions_of_text(current_table(s), ids[0]),
            params: ParamsView::Nothing,
        }),
{
}

/// Duplicating a palette without colours, or whose colours cannot be read,
/// fails before any transaction starts.
pub proof fn duplicate_needs_colors(s: SessionView, reply: ReplyView)
    requires
        well_formed(s),
        s.stage == Stage::LoadColors,
        !(reply matches ReplyView::Ids(v) && v.len() > 0),
    ensures
        step(s, reply).1 == (RequestView::Finish { success: false }),
{
}

/// A finished session stays finished with the same result.
pub proof fn finished_is_final(s: SessionView, reply: ReplyView, b: bool)
    requires
        s.stage == Stage::Finished(b),
    ensures
        step(s, reply) == (s, RequestView::Finish { success: b }),
{
}

/// A running operation keeps running, with the same plan, until it finishes.
pub proof fn progress_is_kept(s: SessionView, reply: ReplyView)
    requires
        in_progress(s),
    ensures
        step(s, reply).0.tasks == s.tasks,
        step(s, reply).0.stage is Finished || in_progress(step(s, reply).0),
{
    lemma_step_well_formed(s, reply);
    lemma_step_launches_stop_at_commit(s, reply);
}

/// The colour row that adding a colour finds or inserts carries the
/// caller's channels, alpha and hex name, each in its own place.
pub proof fn added_color_keeps_channels(hex: Seq<char>, rgba: (i64, i64, i64, Seq<char>))
    ensures
        rgba_spec(hex, rgba).red == rgba.0,
        rgba_spec(hex, rgba).green == rgba.1,
        rgba_spec(hex, rgba).blue == rgba.2,
        rgba_spec(hex, rgba).alpha == rgba.3,
        rgba_spec(hex, rgba).hex == hex,
{
}

/// An extracted colour is saved with its own channels and hex name, and
/// as fully opaque.
pub proof fn extracted_color_keeps_channels(c: ExtractedColorView)
    ensures
        extracted_spec(c).red == c.rgb.0 as i64,
        extracted_spec(c).green == c.rgb.1 as i64,
        extracted_spec(c).blue == c.rgb.2 as i64,
        extracted_spec(c).alpha == seq!['1'],
        extracted_spec(c).hex == c.hex_name,
{
}

/// Whatever the database answers to a copied link's insert, copying goes on
/// with the next colour of the palette: a failure skips only that colour,
/// and a success ends nothing early.
pub proof fn copy_goes_on_after_insert(s: SessionView, reply: ReplyView, i: usize)
    requires
        well_formed(s),
        s.stage == Stage::CopyInsert(i),
    ensures
        step(s, reply) == copy_from(s, i + 1),
        i + 1 < s.loaded.len() ==> step(s, reply).0.stage == Stage::CopyFind((i + 1) as usize)
            && step(s, reply).0.next == s.next && step(s, reply).1 == (RequestView::Query {
            sql: find_junction_text(s.palette_id, s.loaded[i + 1]),
            params: ParamsView::Nothing,
        }),
        i + 1 == s.loaded.len() ==> step(s, reply) == launch(task_done(s)),
{
}

/// A successful link completes the current task alone, required or not:
/// the session goes on with the task after it.
pub proof fn link_completes_only_its_task(s: SessionView, id: i64)
    requires
        well_formed(s),
        s.stage == Stage::InsertJunction,
    ensures
        step(s, ReplyView::RowId(id)) == launch(task_done(s)),
        task_done(s).next == s.next + 1,
{
}

/// Copying a link: a colour already linked to the new palette is skipped,
/// one not yet linked is inserted, and a failed lookup skips that colour
/// only.
pub proof fn copy_links_each_color_once(s: SessionView, reply: ReplyView, i: usize)
    requires
        well_formed(s),
        s.stage == Stage::CopyFind(i),
    ensures
        (reply matches ReplyView::Ids(v) && v.len() == 0) ==> step(s, reply) == (
            with_stage(s, Stage::CopyInsert(i)),
            RequestView::Insert {
                sql: insert_junction_text(),
                params: ParamsView::Junction(s.palette_id, s.loaded[i as int]),
            },
        ),
        !(reply matches ReplyView::Ids(v) && v.len() == 0) ==> step(s, reply) == copy_from(s, i + 1),
{
}
} // verus!
