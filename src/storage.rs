use vstd::prelude::*;

use crate::model::{Command, CommandView};

verus! {

/// A column of the commands table that holds no value twice.
#[derive(Debug, Clone, Copy, PartialEq, Eq, Structural)]
pub enum UniqueColumn {
    Command,
    Executable,
    Alias,
}

/// Failures of the storage layer.
#[derive(Debug)]
pub enum CommandStorageError {
    /// The backing store could not be created or opened.
    OpenConnection(String),
    /// A write would store a second row with the same value in a unique column.
    UniqueViolation(UniqueColumn),
    /// A single-record lookup matched no row.
    NotFound,
    /// The backing store failed while a read or a write was under way.
    Connection(String),
}

/// Whether some row of `rows` holds the command text `text`.
pub open spec fn has_command(rows: Seq<CommandView>, text: Seq<char>) -> bool {
    exists|i: int| 0 <= i < rows.len() && (#[trigger] rows[i]).command == text
}

/// Whether some row of `rows` holds the alias `alias`.
pub open spec fn has_alias(rows: Seq<CommandView>, alias: Seq<char>) -> bool {
    exists|i: int| 0 <= i < rows.len() && (#[trigger] rows[i]).alias == alias
}

/// Whether some row of `rows` holds the executable `executable`.
pub open spec fn has_executable(rows: Seq<CommandView>, executable: Seq<char>) -> bool {
    exists|i: int| 0 <= i < rows.len() && (#[trigger] rows[i]).executable == executable
}

/// Whether no two rows share a command text or an alias, nor an executable
/// when the schema makes that column unique.
pub open spec fn rows_unique(rows: Seq<CommandView>, unique_executable: bool) -> bool {
    forall|i: int, j: int|
        0 <= i < j < rows.len() ==> {
            &&& (#[trigger] rows[i]).command != (#[trigger] rows[j]).command
            &&& rows[i].alias != rows[j].alias
            &&& unique_executable ==> rows[i].executable != rows[j].executable
        }
}

/// The unique column that storing `c` after `rows` would violate, if any;
/// the command text is checked first, then the alias, then the executable.
pub open spec fn insert_conflict(rows: Seq<CommandView>, unique_executable: bool, c: CommandView) -> Option<
    UniqueColumn,
> {
    if has_command(rows, c.command) {
        Some(UniqueColumn::Command)
    } else if has_alias(rows, c.alias) {
        Some(UniqueColumn::Alias)
    } else if unique_executable && has_executable(rows, c.executable) {
        Some(UniqueColumn::Executable)
    } else {
        None
    }
}

/// The row whose command text is `text`, if there is one.
pub open spec fn lookup_command(rows: Seq<CommandView>, text: Seq<char>) -> Option<CommandView> {
    if has_command(rows, text) {
        Some(rows[choose|i: int| 0 <= i < rows.len() && (#[trigger] rows[i]).command == text])
    } else {
        None
    }
}

/// Whether a row does not hold the command text `text`.
pub open spec fn other_command(text: Seq<char>) -> spec_fn(CommandView) -> bool {
    |r: CommandView| r.command != text
}

/// Whether a row holds the executable `executable`.
pub open spec fn same_executable(executable: Seq<char>) -> spec_fn(CommandView) -> bool {
    |r: CommandView| r.executable == executable
}

/// The views of a sequence of commands.
pub open spec fn views(cs: Seq<Command>) -> Seq<CommandView> {
    cs.map_values(|c: Command| c@)
}

/// Filtering keeps the rows unique.
proof fn lemma_filter_unique(rows: Seq<CommandView>, unique_executable: bool, p: spec_fn(CommandView) -> bool)
    requires
        rows_unique(rows, unique_executable),
    ensures
        rows_unique(rows.filter(p), unique_executable),
    decreases rows.len(),
{
    reveal(Seq::filter);
    if rows.len() > 0 {
        let front = rows.drop_last();
        assert(rows_unique(front, unique_executable));
        lemma_filter_unique(front, unique_executable, p);
        let f = front.filter(p);
        if p(rows.last()) {
            assert(rows.filter(p) == f.push(rows.last()));
            assert forall|i: int| 0 <= i < f.len() implies {
                &&& (#[trigger] f[i]).command != rows.last().command
                &&& f[i].alias != rows.last().alias
                &&& unique_executable ==> f[i].executable != rows.last().executable
            } by {
                assert(f.contains(f[i]));
                front.lemma_filter_contains_rev(p, f[i]);
                let k = choose|k: int| 0 <= k < front.len() && front[k] == f[i];
                assert(rows[k] == front[k]);
            }
        } else {
            assert(rows.filter(p) == f);
        }
    }
}

/// Whether a row holds the command text `text`.
pub open spec fn same_command(text: Seq<char>) -> spec_fn(CommandView) -> bool {
    |r: CommandView| r.command == text
}

/// Storing a second record with a command text that is already stored fails
/// on the command column, and after the first store the table holds exactly
/// one row with that text.
pub proof fn lemma_duplicate_command_rejected(
    rows: Seq<CommandView>,
    unique_executable: bool,
    first: CommandView,
    second: CommandView,
)
    requires
        insert_conflict(rows, unique_executable, first) is None,
        second.command == first.command,
    ensures
        insert_conflict(rows.push(first), unique_executable, second) == Some(UniqueColumn::Command),
        rows.push(first).filter(same_command(first.command)) == seq![first],
{
    let p = same_command(first.command);
    let after = rows.push(first);
    assert(after[rows.len() as int] == first);
    assert(has_command(after, second.command));
    assert(rows.all(|x: CommandView| !p(x))) by {
        assert forall|i: int| 0 <= i < rows.len() implies !p(#[trigger] rows[i]) by {
            assert(!(rows[i].command == first.command));
        }
    }
    rows.lemma_all_neg_filter_empty(p);
    rows.lemma_filter_push(first, p);
    assert(rows.filter(p).push(first) =~= seq![first]);
}

/// After the row of a command text is deleted, looking that text up finds
/// nothing.
pub proof fn lemma_deleted_command_not_found(rows: Seq<CommandView>, text: Seq<char>)
    ensures
        lookup_command(rows.filter(other_command(text)), text) is None,
{
    broadcast use vstd::seq_lib::group_filter_ensures;

    let kept = rows.filter(other_command(text));
    assert forall|i: int| 0 <= i < kept.len() implies (#[trigger] kept[i]).command != text by {
        assert(other_command(text)(kept[i]));
    }
}

/// With a unique executable column, a record whose command text and alias
/// are new but whose executable is stored is refused on the executable
/// column; without it, the same record is stored.
pub proof fn lemma_shared_executable(rows: Seq<CommandView>, c: CommandView)
    requires
        !has_command(rows, c.command),
        !has_alias(rows, c.alias),
        has_executable(rows, c.executable),
    ensures
        insert_conflict(rows, true, c) == Some(UniqueColumn::Executable),
        insert_conflict(rows, false, c) is None,
{
}

/// A freshly created table lists no command: whatever a listing returns
/// whose views are the rows of an empty table is itself empty.
pub proof fn lemma_fresh_store_lists_nothing(rows: Seq<CommandView>, listed: Seq<Command>)
    requires
        rows == Seq::<CommandView>::empty(),
        views(listed) == rows,
    ensures
        listed.len() == 0,
{
    assert(views(listed).len() == listed.len());
}

/// The rows of the commands table, in the order in which they were stored.
pub struct CommandStorageManager {
    rows: Vec<Command>,
    unique_executable: bool,
}

impl View for CommandStorageManager {
    type V = Seq<CommandView>;

    closed spec fn view(&self) -> Seq<CommandView> {
        views(self.rows@)
    }
}

impl CommandStorageManager {
    #[verifier::type_invariant]
    spec fn inv(&self) -> bool {
        rows_unique(self@, self.unique_executable)
    }

    /// Whether the schema makes the executable column unique.
    pub closed spec fn enforces_unique_executable(&self) -> bool {
        self.unique_executable
    }

    /// Whether the stored rows meet the schema's uniqueness constraints.
    pub open spec fn wf(&self) -> bool {
        rows_unique(self@, self.enforces_unique_executable())
    }

    /// An empty table. The command text and the alias are unique columns;
    /// the executable is one only when `unique_executable` is set.
    pub fn new(unique_executable: bool) -> (r: CommandStorageManager)
        ensures
            r@ == Seq::<CommandView>::empty(),
            r.enforces_unique_executable() == unique_executable,
            r.wf(),
    {
        let r = CommandStorageManager { rows: Vec::new(), unique_executable };
        assert(r@ =~= Seq::<CommandView>::empty());
        r
    }

    /// Whether the schema makes the executable column unique.
    pub fn unique_executable(&self) -> (r: bool)
        ensures
            r == self.enforces_unique_executable(),
    {
        self.unique_executable
    }

    /// Every stored row, in storage order. Never fails for want of rows.
    pub fn get_all_commands(&self) -> (r: Result<Vec<Command>, CommandStorageError>)
        ensures
            r matches Ok(v) && views(v@) == self@,
    {
        let mut out: Vec<Command> = Vec::new();
        let mut k: usize = 0;
        while k < self.rows.len()
            invariant
                k <= self.rows.len(),
                views(out@) == views(self.rows@).take(k as int),
            decreases self.rows.len() - k,
        {
            let ghost before = out@;
            let c = self.rows[k].clone();
            out.push(c);
            assert(views(out@) =~= views(before).push(c@));
            k = k + 1;
            assert(views(out@) =~= views(self.rows@).take(k as int));
        }
        assert(views(self.rows@).take(k as int) =~= views(self.rows@));
        Ok(out)
    }

    /// The rows whose executable is `executable`, in storage order.
    pub fn get_commands_by_executable(&self, executable: String) -> (r: Result<
        Vec<Command>,
        CommandStorageError,
    >)
        ensures
            r matches Ok(v) && views(v@) == self@.filter(same_executable(executable@)),
    {
        let ghost all = self@;
        let ghost p = same_executable(executable@);
        let mut out: Vec<Command> = Vec::new();
        let mut k: usize = 0;
        while k < self.rows.len()
            invariant
                k <= self.rows.len(),
                all == views(self.rows@),
                p == same_executable(executable@),
                views(out@) == all.take(k as int).filter(p),
            decreases self.rows.len() - k,
        {
            let ghost before = out@;
            proof {
                assert(all.take(k + 1) =~= all.take(k as int).push(all[k as int]));
                all.take(k as int).lemma_filter_push(all[k as int], p);
            }
            if self.rows[k].executable == executable {
                out.push(self.rows[k].clone());
                assert(views(out@) =~= views(before).push(all[k as int]));
            }
            k = k + 1;
        }
        assert(all.take(k as int) =~= all);
        Ok(out)
    }

    /// The row whose command text is that of `command`; `NotFound` when no
    /// row holds it.
    pub fn get_command(&self, command: Command) -> (r: Result<Command, CommandStorageError>)
        ensures
            match lookup_command(self@, command.command@) {
                Some(row) => r matches Ok(c) && c@ == row,
                None => r matches Err(CommandStorageError::NotFound),
            },
    {
        proof {
            use_type_invariant(self);
        }
        let mut k: usize = 0;
        while k < self.rows.len()
            invariant
                k <= self.rows.len(),
                rows_unique(self@, self.unique_executable),
                forall|i: int| 0 <= i < k ==> (#[trigger] self@[i]).command != command.command@,
            decreases self.rows.len() - k,
        {
            if self.rows[k].command == command.command {
                let found = self.rows[k].clone();
                proof {
                    assert(self@[k as int].command == command.command@);
                    let j = choose|j: int|
                        0 <= j < self@.len() && (#[trigger] self@[j]).command == command.command@;
                    if j != k {
                        if j < k {
                            assert(self@[j].command != self@[k as int].command);
                        } else {
                            assert(self@[k as int].command != self@[j].command);
                        }
                    }
                }
                return Ok(found);
            }
            k = k + 1;
        }
        Err(CommandStorageError::NotFound)
    }

    /// Stores `command` as the last row, unless a unique column already holds
    /// its value; then the table is left as it was.
    pub fn insert_command(&mut self, command: Command) -> (r: Result<(), CommandStorageError>)
        ensures
            final(self).enforces_unique_executable() == old(self).enforces_unique_executable(),
            final(self).wf(),
            match insert_conflict(old(self)@, old(self).enforces_unique_executable(), command@) {
                Some(col) => r == Err::<(), CommandStorageError>(
                    CommandStorageError::UniqueViolation(col),
                ) && final(self)@ == old(self)@,
                None => r is Ok && final(self)@ == old(self)@.push(command@),
            },
    {
        proof {
            use_type_invariant(&*self);
        }
        let mut dup_command = false;
        let mut dup_alias = false;
        let mut dup_executable = false;
        let mut k: usize = 0;
        while k < self.rows.len()
            invariant
                k <= self.rows.len(),
                rows_unique(self@, self.unique_executable),
                dup_command == exists|i: int|
                    0 <= i < k && (#[trigger] self@[i]).command == command.command@,
                dup_alias == exists|i: int| 0 <= i < k && (#[trigger] self@[i]).alias == command.alias@,
                dup_executable == exists|i: int|
                    0 <= i < k && (#[trigger] self@[i]).executable == command.executable@,
            decreases self.rows.len() - k,
        {
            assert(self@[k as int] == self.rows@[k as int]@);
            if self.rows[k].command == command.command {
                dup_command = true;
            }
            if self.rows[k].alias == command.alias {
                dup_alias = true;
            }
            if self.rows[k].executable == command.executable {
                dup_executable = true;
            }
            k = k + 1;
        }
        if dup_command {
            return Err(CommandStorageError::UniqueViolation(UniqueColumn::Command));
        }
        if dup_alias {
            return Err(CommandStorageError::UniqueViolation(UniqueColumn::Alias));
        }
        if self.unique_executable && dup_executable {
            return Err(CommandStorageError::UniqueViolation(UniqueColumn::Executable));
        }
        let ghost before = self@;
        proof {
            let ue = self.unique_executable;
            assert forall|i: int, j: int| 0 <= i < j < before.push(command@).len() implies {
                &&& (#[trigger] before.push(command@)[i]).command != (#[trigger] before.push(
                    command@,
                )[j]).command
                &&& before.push(command@)[i].alias != before.push(command@)[j].alias
                &&& ue ==> before.push(command@)[i].executable != before.push(command@)[j].executable
            } by {
                assert(before[i] == before.push(command@)[i]);
                if j < before.len() {
                    assert(before[j] == before.push(command@)[j]);
                }
            }
        }
        let mut rows: Vec<Command> = Vec::new();
        std::mem::swap(&mut rows, &mut self.rows);
        rows.push(command);
        assert(views(rows@) =~= before.push(command@));
        self.rows = rows;
        Ok(())
    }

    /// Removes the row whose command text is that of `command`. Removing a
    /// text that no row holds is no error: the table is left as it was.
    pub fn delete_command(&mut self, command: Command) -> (r: Result<(), CommandStorageError>)
        ensures
            final(self).enforces_unique_executable() == old(self).enforces_unique_executable(),
            final(self).wf(),
            r is Ok,
            final(self)@ == old(self)@.filter(other_command(command.command@)),
    {
        proof {
            use_type_invariant(&*self);
        }
        let ghost all = self@;
        let ghost p = other_command(command.command@);
        let mut kept: Vec<Command> = Vec::new();
        let mut k: usize = 0;
        while k < self.rows.len()
            invariant
                k <= self.rows.len(),
                all == views(self.rows@),
                p == other_command(command.command@),
                views(kept@) == all.take(k as int).filter(p),
            decreases self.rows.len() - k,
        {
            let ghost before = kept@;
            proof {
                assert(all.take(k + 1) =~= all.take(k as int).push(all[k as int]));
                all.take(k as int).lemma_filter_push(all[k as int], p);
            }
            if self.rows[k].command != command.command {
                kept.push(self.rows[k].clone());
                assert(views(kept@) =~= views(before).push(all[k as int]));
            }
            k = k + 1;
        }
        proof {
            assert(all.take(k as int) =~= all);
            lemma_filter_unique(all, self.unique_executable, p);
        }
        self.rows = kept;
        Ok(())
    }
}

} // verus!
