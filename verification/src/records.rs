//! What is kept of transforms: a row for each in the database, and a line in the daily log for
//! each time that one is saved.

use crate::clock::{day_of, holds_day, ops_file_name, ops_file_of, utc_day};
use crate::protocol::Timestamp;
use crate::transform::{
    law_operation_holds_the_result, operation_line, operation_of, RowView, TransformResult,
    TransformRow,
};
use vstd::prelude::*;

verus! {

/// What saving a transform does: the row goes to the database, where it replaces the row with the
/// same id, and the line goes to the end of the log file.
#[derive(Debug, Clone, PartialEq, Eq)]
pub struct SavePlan {
    pub row: TransformRow,
    pub file: String,
    pub line: String,
}

/// What a [`SavePlan`] holds.
pub struct PlanView {
    pub row: RowView,
    pub file: Seq<char>,
    pub line: Seq<char>,
}

impl View for SavePlan {
    type V = PlanView;

    open spec fn view(&self) -> PlanView {
        PlanView { row: self.row@, file: self.file@, line: self.line@ }
    }
}

impl PlanView {
    /// Whether this is the plan that saves a result, given its JSON text, at a moment.
    pub open spec fn saves(
        self,
        result: TransformResult,
        accepted: bool,
        json: Seq<char>,
        now: Timestamp,
    ) -> bool {
        &&& self.row.records(result, accepted)
        &&& self.file == ops_file_of(utc_day(day_of(now.seconds)))
        &&& self.line == operation_of(accepted, json)
    }
}

/// The plan that saves a row and logs the result that it records, given as JSON text. The file is
/// that of the day; there is no plan where the calendar does not hold the day.
pub fn save_plan(row: TransformRow, json: &str, now: Timestamp) -> (plan: Option<SavePlan>)
    ensures
        match plan {
            Some(plan) => {
                &&& holds_day(now.seconds)
                &&& plan.row == row
                &&& plan.file@ == ops_file_of(utc_day(day_of(now.seconds)))
                &&& plan.line@ == operation_of(row.accepted != 0, json@)
            },
            None => !holds_day(now.seconds),
        },
        forall|result: TransformResult, accepted: bool| #[trigger]
            row@.records(result, accepted) && holds_day(now.seconds) ==> plan is Some
                && plan->0@.saves(result, accepted, json@, now),
{
    match ops_file_name(now) {
        Some(file) => {
            let line = operation_line(row.accepted != 0, json);
            Some(SavePlan { row, file, line })
        },
        None => None,
    }
}

/// What is kept: the rows by their ids, and the lines of each log file. This is what a plan
/// means; the program around the library carries it out, on a table whose key is the id and on
/// files that are opened for appending.
pub struct StoreView {
    pub rows: Map<Seq<char>, RowView>,
    pub logs: Map<Seq<char>, Seq<Seq<char>>>,
}

impl StoreView {
    /// The lines of a log file; none where there is no such file.
    pub open spec fn log(self, file: Seq<char>) -> Seq<Seq<char>> {
        if self.logs.contains_key(file) {
            self.logs[file]
        } else {
            seq![]
        }
    }

    /// What is kept after a plan was carried out.
    pub open spec fn saved(self, plan: PlanView) -> StoreView {
        StoreView {
            rows: self.rows.insert(plan.row.id, plan.row),
            logs: self.logs.insert(plan.file, self.log(plan.file).push(plan.line)),
        }
    }

    /// What is kept after several plans were carried out, one after the other.
    pub open spec fn after_saves(self, plans: Seq<PlanView>) -> StoreView
        decreases plans.len(),
    {
        if plans.len() == 0 {
            self
        } else {
            self.after_saves(plans.drop_last()).saved(plans.last())
        }
    }
}

/// The lines that plans add to a file, in order.
pub open spec fn lines_for(plans: Seq<PlanView>, file: Seq<char>) -> Seq<Seq<char>>
    decreases plans.len(),
{
    if plans.len() == 0 {
        seq![]
    } else if plans.last().file == file {
        lines_for(plans.drop_last(), file).push(plans.last().line)
    } else {
        lines_for(plans.drop_last(), file)
    }
}

/// The row of the last plan for an id.
pub open spec fn last_row_for(plans: Seq<PlanView>, id: Seq<char>) -> Option<RowView>
    decreases plans.len(),
{
    if plans.len() == 0 {
        None
    } else if plans.last().row.id == id {
        Some(plans.last().row)
    } else {
        last_row_for(plans.drop_last(), id)
    }
}

/// The log keeps the order of the saves: a file holds the lines that it held, none of them
/// changed, and behind them those of the saves on its day, in order.
pub proof fn law_log_keeps_order(store: StoreView, plans: Seq<PlanView>, file: Seq<char>)
    ensures
        store.after_saves(plans).log(file) == store.log(file) + lines_for(plans, file),
    decreases plans.len(),
{
    if plans.len() == 0 {
        assert(store.log(file) + Seq::<Seq<char>>::empty() =~= store.log(file));
    } else {
        law_log_keeps_order(store, plans.drop_last(), file);
        assert(store.after_saves(plans).log(file) =~= store.log(file) + lines_for(plans, file));
    }
}

/// There is one row for an id: that of the last save under it, or else the one that was there.
pub proof fn law_last_save_counts(store: StoreView, plans: Seq<PlanView>, id: Seq<char>)
    ensures
        match last_row_for(plans, id) {
            Some(row) => store.after_saves(plans).rows.contains_key(id) && store.after_saves(
                plans,
            ).rows[id] == row,
            None => {
                &&& store.after_saves(plans).rows.contains_key(id) == store.rows.contains_key(id)
                &&& store.rows.contains_key(id) ==> store.after_saves(plans).rows[id]
                    == store.rows[id]
            },
        },
    decreases plans.len(),
{
    if plans.len() > 0 {
        law_last_save_counts(store, plans.drop_last(), id);
    }
}

/// A preview that is accepted afterwards under the same id has one row, the accepted one, with
/// the normalized draft in it; the rows of all other ids stay as they were. The log of the day
/// holds two lines more, the preview's and then the accepted one's, and nothing else changes.
pub proof fn law_accepting_replaces_the_preview(
    store: StoreView,
    preview: TransformResult,
    accepted: TransformResult,
    preview_json: Seq<char>,
    accepted_json: Seq<char>,
    first: PlanView,
    second: PlanView,
    previewed_at: Timestamp,
    accepted_at: Timestamp,
)
    requires
        preview.id@ == accepted.id@,
        first.saves(preview, false, preview_json, previewed_at),
        second.saves(accepted, true, accepted_json, accepted_at),
    ensures
        ({
            let id = accepted.id@;
            let end = store.saved(first).saved(second);
            let first_file = ops_file_of(utc_day(day_of(previewed_at.seconds)));
            let second_file = ops_file_of(utc_day(day_of(accepted_at.seconds)));
            let preview_line = operation_of(false, preview_json);
            let accepted_line = operation_of(true, accepted_json);
            &&& end.rows == store.rows.insert(id, second.row)
            &&& end.rows[id].accepted == 1
            &&& end.rows[id].raw == accepted.normalized_raw@
            &&& end.rows[id].converted == accepted.converted@
            &&& end.rows[id].refined == accepted.refined@
            &&& end.rows[id].final_text == accepted.final_text@
            &&& forall|other: Seq<char>|
                other != id ==> (end.rows.contains_key(other) == store.rows.contains_key(other)
                    && end.rows[other] == #[trigger] store.rows[other])
            &&& first_file == second_file ==> end.log(first_file) == store.log(first_file).push(
                preview_line,
            ).push(accepted_line)
            &&& first_file != second_file ==> end.log(first_file) == store.log(first_file).push(
                preview_line,
            ) && end.log(second_file) == store.log(second_file).push(accepted_line)
            &&& forall|file: Seq<char>|
                file != first_file && file != second_file ==> #[trigger] end.log(file)
                    == store.log(file)
        }),
{
    let end = store.saved(first).saved(second);
    assert(end.rows =~= store.rows.insert(accepted.id@, second.row));
}

/// A save adds one line at the end of its file and sets one row; every other file and every other
/// row stays as it was.
pub proof fn law_one_save(store: StoreView, plan: PlanView, file: Seq<char>, id: Seq<char>)
    ensures
        store.saved(plan).log(plan.file) == store.log(plan.file) + seq![plan.line],
        file != plan.file ==> store.saved(plan).log(file) == store.log(file),
        store.saved(plan).rows.contains_key(plan.row.id),
        store.saved(plan).rows[plan.row.id] == plan.row,
        id != plan.row.id ==> store.saved(plan).rows.contains_key(id) == store.rows.contains_key(
            id,
        ),
        id != plan.row.id && store.rows.contains_key(id) ==> store.saved(plan).rows[id]
            == store.rows[id],
{
    assert(store.saved(plan).log(plan.file) =~= store.log(plan.file) + seq![plan.line]);
}

/// A plan for a result goes to the file of the day and holds the whole result.
pub proof fn law_plan_holds_the_result(
    plan: PlanView,
    result: TransformResult,
    accepted: bool,
    json: Seq<char>,
    now: Timestamp,
)
    requires
        plan.saves(result, accepted, json, now),
    ensures
        plan.file == utc_day(now.seconds as int / 86_400) + ".jsonl"@,
        accepted ==> plan.line == "{\"result\":"@ + json + ",\"type\":\"accepted\"}"@,
        !accepted ==> plan.line == "{\"result\":"@ + json + ",\"type\":\"preview\"}"@,
        plan.row.records(result, accepted),
{
    law_operation_holds_the_result(json);
}

} // verus!
