use vstd::prelude::*;

use crate::model::{opt_view, Command, CommandView};
use crate::service::{insert_result, result_view, rows_after, CommandService, CommandServiceError};
use crate::storage::views;

verus! {

/// The rows after the records of `records` are stored one by one after
/// `rows`, each failure leaving the rows as they were.
pub open spec fn import_rows(rows: Seq<CommandView>, unique_executable: bool, records: Seq<CommandView>) -> Seq<
    CommandView,
>
    decreases records.len(),
{
    if records.len() == 0 {
        rows
    } else {
        let before = import_rows(rows, unique_executable, records.drop_last());
        let r = records.last();
        rows_after(before, insert_result(before, unique_executable, r.command, r.alias, r.description))
    }
}

/// Stores each record of `commands` in turn, by its command text, alias and
/// description, and returns the outcome of each; a failure is reported and
/// the batch goes on.
pub fn populate_db(service: &mut CommandService, commands: Vec<Command>) -> (outcomes: Vec<
    Result<Command, CommandServiceError>,
>)
    ensures
        final(service).enforces_unique_executable() == old(service).enforces_unique_executable(),
        outcomes.len() == commands.len(),
        forall|i: int|
            0 <= i < commands.len() ==> result_view(#[trigger] outcomes@[i]) == insert_result(
                import_rows(
                    old(service)@,
                    old(service).enforces_unique_executable(),
                    views(commands@).take(i),
                ),
                old(service).enforces_unique_executable(),
                commands@[i].command@,
                commands@[i].alias@,
                opt_view(commands@[i].description),
            ),
        final(service)@ == import_rows(
            old(service)@,
            old(service).enforces_unique_executable(),
            views(commands@),
        ),
{
    let ghost start = service@;
    let ghost ue = service.enforces_unique_executable();
    let ghost records = views(commands@);
    let mut outcomes: Vec<Result<Command, CommandServiceError>> = Vec::new();
    let mut i: usize = 0;
    while i < commands.len()
        invariant
            i <= commands.len(),
            records == views(commands@),
            service.enforces_unique_executable() == ue,
            outcomes.len() == i,
            service@ == import_rows(start, ue, records.take(i as int)),
            forall|k: int|
                0 <= k < i ==> result_view(#[trigger] outcomes@[k]) == insert_result(
                    import_rows(start, ue, records.take(k)),
                    ue,
                    commands@[k].command@,
                    commands@[k].alias@,
                    opt_view(commands@[k].description),
                ),
        decreases commands.len() - i,
    {
        let c = commands[i].clone();
        let outcome = service.insert_command(c.command.as_str(), c.alias.as_str(), c.description);
        proof {
            assert(records.take(i + 1).drop_last() =~= records.take(i as int));
        }
        outcomes.push(outcome);
        i = i + 1;
    }
    proof {
        assert(records.take(i as int) =~= records);
    }
    outcomes
}

} // verus!
