use vstd::prelude::*;

use crate::model::{first_token, first_token_of, opt_view, Command, CommandView};
use crate::storage::{
    has_command, insert_conflict, lookup_command, other_command, views, CommandStorageError,
    CommandStorageManager,
};

verus! {

/// Failures of the command service; each storage failure is kept as the cause.
#[derive(Debug)]
pub enum CommandServiceError {
    StorageManagerConstruction(CommandStorageError),
    StorageManagerInsertCommand(CommandStorageError),
    StorageManagerGetAll(CommandStorageError),
    StorageManagerGetCommand(CommandStorageError),
    StorageManagerDeleteCommand(CommandStorageError),
    /// The command text holds no token to take the executable from.
    NoExecutable,
}

/// The record that the service builds from a command text, an alias and a
/// description: its executable is the first token of the text.
pub open spec fn new_record(
    command: Seq<char>,
    alias: Seq<char>,
    description: Option<Seq<char>>,
) -> CommandView {
    CommandView { alias, executable: first_token(command), command, description }
}

/// What storing the command text `command` under `alias` after `rows` gives:
/// the stored record, or the failure.
pub open spec fn insert_result(
    rows: Seq<CommandView>,
    unique_executable: bool,
    command: Seq<char>,
    alias: Seq<char>,
    description: Option<Seq<char>>,
) -> Result<CommandView, CommandServiceError> {
    let rec = new_record(command, alias, description);
    if first_token(command).len() == 0 {
        Err(CommandServiceError::NoExecutable)
    } else {
        match insert_conflict(rows, unique_executable, rec) {
            Some(col) => Err(
                CommandServiceError::StorageManagerInsertCommand(
                    CommandStorageError::UniqueViolation(col),
                ),
            ),
            None => Ok(rec),
        }
    }
}

/// The rows after a store whose result is `result`.
pub open spec fn rows_after(rows: Seq<CommandView>, result: Result<CommandView, CommandServiceError>) -> Seq<
    CommandView,
> {
    match result {
        Ok(rec) => rows.push(rec),
        Err(_) => rows,
    }
}

/// A result of the service, with the record as plain values.
pub open spec fn result_view(r: Result<Command, CommandServiceError>) -> Result<CommandView, CommandServiceError> {
    match r {
        Ok(c) => Ok(c@),
        Err(e) => Err(e),
    }
}

/// Whether the executable of every row is the first token of its command
/// text, and not empty.
pub open spec fn rows_derived(rows: Seq<CommandView>) -> bool {
    forall|i: int|
        0 <= i < rows.len() ==> {
            &&& (#[trigger] rows[i]).executable == first_token(rows[i].command)
            &&& rows[i].executable.len() > 0
        }
}

/// The executable of a command text: its first whitespace-delimited token.
pub fn derive_executable(command: &str) -> (r: Result<String, CommandServiceError>)
    ensures
        first_token(command@).len() == 0 ==> r matches Err(CommandServiceError::NoExecutable),
        first_token(command@).len() > 0 ==> (r matches Ok(e) && e@ == first_token(command@)),
{
    let executable = first_token_of(command);
    if executable.as_str().is_empty() {
        Err(CommandServiceError::NoExecutable)
    } else {
        Ok(executable)
    }
}

/// Builds the record for a command text, or fails when the text has no token.
fn build_command(command: &str, alias: &str, description: Option<String>) -> (r: Result<
    Command,
    CommandServiceError,
>)
    ensures
        first_token(command@).len() == 0 ==> r matches Err(CommandServiceError::NoExecutable),
        first_token(command@).len() > 0 ==> (r matches Ok(c) && c@ == new_record(
            command@,
            alias@,
            opt_view(description),
        )),
{
    let executable = derive_executable(command)?;
    Ok(Command::new(executable, command.to_owned(), alias.to_owned(), description))
}

/// A command stored through the service is found again by its text, and the
/// record found carries the first token of that text as its executable.
pub proof fn lemma_inserted_command_found(
    rows: Seq<CommandView>,
    unique_executable: bool,
    command: Seq<char>,
    alias: Seq<char>,
    description: Option<Seq<char>>,
)
    requires
        insert_result(rows, unique_executable, command, alias, description) is Ok,
    ensures
        ({
            let after = rows_after(rows, insert_result(rows, unique_executable, command, alias, description));
            &&& lookup_command(after, command) == Some(new_record(command, alias, description))
            &&& lookup_command(after, command)->0.executable == first_token(command)
        }),
{
    let rec = new_record(command, alias, description);
    let after = rows.push(rec);
    assert(after[rows.len() as int] == rec);
    assert(has_command(after, command));
    let i = choose|i: int| 0 <= i < after.len() && (#[trigger] after[i]).command == command;
    if i < rows.len() {
        assert(rows[i] == after[i]);
    }
}

/// The typed interface over the commands table: it derives each record's
/// executable from its command text.
pub struct CommandService {
    storage_manager: CommandStorageManager,
}

impl View for CommandService {
    type V = Seq<CommandView>;

    closed spec fn view(&self) -> Seq<CommandView> {
        self.storage_manager@
    }
}

impl CommandService {
    #[verifier::type_invariant]
    spec fn inv(&self) -> bool {
        &&& self.storage_manager.wf()
        &&& rows_derived(self.storage_manager@)
    }

    /// Whether the table's schema makes the executable column unique.
    pub closed spec fn enforces_unique_executable(&self) -> bool {
        self.storage_manager.enforces_unique_executable()
    }

    /// A service over an empty table; `unique_executable` chooses whether two
    /// commands may share an executable (they may when it is false).
    pub fn new(unique_executable: bool) -> (r: CommandService)
        ensures
            r@ == Seq::<CommandView>::empty(),
            r.enforces_unique_executable() == unique_executable,
    {
        CommandService { storage_manager: CommandStorageManager::new(unique_executable) }
    }

    /// Stores the command `command` under `alias` and returns the stored record.
    pub fn insert_command(&mut self, command: &str, alias: &str, description: Option<String>) -> (r:
        Result<Command, CommandServiceError>)
        ensures
            final(self).enforces_unique_executable() == old(self).enforces_unique_executable(),
            rows_derived(final(self)@),
            result_view(r) == insert_result(
                old(self)@,
                old(self).enforces_unique_executable(),
                command@,
                alias@,
                opt_view(description),
            ),
            final(self)@ == rows_after(old(self)@, result_view(r)),
    {
        proof {
            use_type_invariant(&*self);
        }
        let record = build_command(command, alias, description)?;
        let stored = record.clone();
        let ghost before = self.storage_manager@;
        let mut storage_manager = CommandStorageManager::new(false);
        std::mem::swap(&mut storage_manager, &mut self.storage_manager);
        let outcome = storage_manager.insert_command(stored);
        proof {
            assert forall|i: int| 0 <= i < storage_manager@.len() implies {
                &&& (#[trigger] storage_manager@[i]).executable == first_token(
                    storage_manager@[i].command,
                )
                &&& storage_manager@[i].executable.len() > 0
            } by {
                if i < before.len() {
                    assert(storage_manager@[i] == before[i]);
                }
            }
        }
        self.storage_manager = storage_manager;
        match outcome {
            Ok(()) => Ok(record),
            Err(e) => Err(CommandServiceError::StorageManagerInsertCommand(e)),
        }
    }

    /// Every stored record, in storage order.
    pub fn get_all_commands(&self) -> (r: Result<Vec<Command>, CommandServiceError>)
        ensures
            r matches Ok(v) && views(v@) == self@ && rows_derived(views(v@)),
    {
        proof {
            use_type_invariant(self);
        }
        match self.storage_manager.get_all_commands() {
            Ok(v) => Ok(v),
            Err(e) => Err(CommandServiceError::StorageManagerGetAll(e)),
        }
    }

    /// The stored record whose command text is `command`. The alias is not
    /// part of the lookup.
    pub fn get_command(&self, command: &str, alias: &str) -> (r: Result<Command, CommandServiceError>)
        ensures
            first_token(command@).len() == 0 ==> r matches Err(CommandServiceError::NoExecutable),
            first_token(command@).len() > 0 ==> match lookup_command(self@, command@) {
                Some(row) => r matches Ok(c) && c@ == row && c@.executable == first_token(
                    c@.command,
                ),
                None => r matches Err(
                    CommandServiceError::StorageManagerGetCommand(CommandStorageError::NotFound),
                ),
            },
    {
        proof {
            use_type_invariant(self);
        }
        let key = build_command(command, alias, None)?;
        match self.storage_manager.get_command(key) {
            Ok(c) => Ok(c),
            Err(e) => Err(CommandServiceError::StorageManagerGetCommand(e)),
        }
    }

    /// Removes the stored record whose command text is `command` and returns
    /// the record built from the arguments. Removing a text that is not
    /// stored is no error.
    pub fn delete_command(&mut self, command: &str, alias: &str, description: Option<String>) -> (r:
        Result<Command, CommandServiceError>)
        ensures
            final(self).enforces_unique_executable() == old(self).enforces_unique_executable(),
            rows_derived(final(self)@),
            first_token(command@).len() == 0 ==> (r matches Err(CommandServiceError::NoExecutable)
                && final(self)@ == old(self)@),
            first_token(command@).len() > 0 ==> (r matches Ok(c) && c@ == new_record(
                command@,
                alias@,
                opt_view(description),
            ) && final(self)@ == old(self)@.filter(other_command(command@))),
    {
        proof {
            use_type_invariant(&*self);
        }
        let record = build_command(command, alias, description)?;
        let key = record.clone();
        let ghost before = self.storage_manager@;
        let mut storage_manager = CommandStorageManager::new(false);
        std::mem::swap(&mut storage_manager, &mut self.storage_manager);
        let outcome = storage_manager.delete_command(key);
        proof {
            assert forall|i: int| 0 <= i < storage_manager@.len() implies {
                &&& (#[trigger] storage_manager@[i]).executable == first_token(
                    storage_manager@[i].command,
                )
                &&& storage_manager@[i].executable.len() > 0
            } by {
                let p = other_command(command@);
                assert(before.filter(p).contains(storage_manager@[i]));
                before.lemma_filter_contains_rev(p, storage_manager@[i]);
            }
        }
        self.storage_manager = storage_manager;
        match outcome {
            Ok(()) => Ok(record),
            Err(e) => Err(CommandServiceError::StorageManagerDeleteCommand(e)),
        }
    }
}

} // verus!
