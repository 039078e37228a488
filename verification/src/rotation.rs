//! The rotation table: for each resolved directory, the index of the response
//! file that the next request is answered with.

use std::sync::Arc;
use vstd::prelude::*;
use vstd::arithmetic::div_mod::lemma_add_mod_noop;
use vstd::arithmetic::div_mod::lemma_mod_self_0;
use vstd::arithmetic::div_mod::lemma_small_mod;
use vstd::hash_map::StringHashMap;
use vstd::rwlock::RwLock;
use vstd::rwlock::RwLockPredicate;
use vstd::string::StringExecFns;
use crate::error::Error;
use crate::error::ErrorKind;
use crate::error::ErrorModel;
use crate::error::no_files_message;
use crate::error::outcome;
use crate::text::views;

verus! {

/// The index that is served when `stored` is on record and `count` files are
/// on offer: a record that has run past the files starts over at the first.
pub open spec fn normalized(stored: nat, count: nat) -> nat {
    if stored >= count {
        0
    } else {
        stored
    }
}

/// The record that one selection among `count` files leaves behind.
pub open spec fn advanced(stored: nat, count: nat) -> nat {
    normalized(stored, count) + 1
}

/// The record for `directory` in `table`; a directory never served counts as 0.
pub open spec fn stored_index(table: Map<Seq<char>, usize>, directory: Seq<char>) -> nat {
    if table.contains_key(directory) {
        table[directory] as nat
    } else {
        0
    }
}

/// What a selection returns: the file at the normalized index, or the
/// not-found failure when no file is on offer.
pub open spec fn selected(
    table: Map<Seq<char>, usize>,
    directory: Seq<char>,
    candidates: Seq<Seq<char>>,
) -> Result<Seq<char>, ErrorModel> {
    if candidates.len() == 0 {
        Err(ErrorModel { kind: ErrorKind::NotFound, message: no_files_message() })
    } else {
        Ok(candidates[normalized(stored_index(table, directory), candidates.len()) as int])
    }
}

/// The table after a selection: untouched when no file is on offer, else the
/// directory's record is one past the index that was served.
pub open spec fn table_after(
    table: Map<Seq<char>, usize>,
    directory: Seq<char>,
    count: nat,
) -> Map<Seq<char>, usize> {
    if count == 0 {
        table
    } else {
        table.insert(directory, advanced(stored_index(table, directory), count) as usize)
    }
}

pub struct RotationTable {
    indices: StringHashMap<usize>,
}

impl View for RotationTable {
    type V = Map<Seq<char>, usize>;

    closed spec fn view(&self) -> Map<Seq<char>, usize> {
        self.indices@
    }
}

impl RotationTable {
    /// A table with no directory on record.
    pub fn new() -> (table: RotationTable)
        ensures
            table@ == Map::<Seq<char>, usize>::empty(),
    {
        RotationTable { indices: StringHashMap::new() }
    }

    /// The record for `directory`: the index that was served last, plus one;
    /// 0 when the directory was never served.
    pub fn stored(&self, directory: &str) -> (index: usize)
        ensures
            index == stored_index(self@, directory@),
    {
        match self.indices.get(directory) {
            Some(index) => *index,
            None => 0,
        }
    }

    /// Picks the file of `candidates` that is `directory`'s turn and moves the
    /// directory's record past it.
    pub fn select(&mut self, directory: &str, candidates: &Vec<String>) -> (picked: Result<
        String,
        Error,
    >)
        ensures
            outcome(picked) == selected(old(self)@, directory@, views(candidates@)),
            final(self)@ == table_after(old(self)@, directory@, candidates@.len()),
    {
        let count: usize = candidates.len();
        if count == 0 {
            return Err(Error::no_files_available());
        }
        let stored: usize = self.stored(directory);
        let index: usize = if stored >= count {
            0
        } else {
            stored
        };
        let file: String = candidates[index].clone();
        self.indices.insert(String::from_str(directory), index + 1);
        Ok(file)
    }
}

/// Whether the selections of some trace, one after the other, lead from
/// the table `initial` to `table`.
pub open spec fn is_reachable(
    initial: Map<Seq<char>, usize>,
    table: Map<Seq<char>, usize>,
) -> bool {
    exists|trace: Seq<Selection>| table == #[trigger] table_after_all(initial, trace)
}

/// What a shared table may hold: whatever selections lead to from the table
/// that it started with. Nothing but a selection ever changes it.
pub struct History {
    pub initial: Map<Seq<char>, usize>,
}

impl RwLockPredicate<RotationTable> for History {
    open spec fn inv(self, table: RotationTable) -> bool {
        is_reachable(self.initial, table@)
    }
}

/// A rotation table shared by all requests that are in flight. Each
/// selection holds the table's lock from the lookup to the update.
pub struct MultiFileIndexMap {
    table: Arc<RwLock<RotationTable, History>>,
}

impl MultiFileIndexMap {
    /// A shared table with no directory on record.
    pub fn new() -> (shared: MultiFileIndexMap)
        ensures
            shared.initial() == Map::<Seq<char>, usize>::empty(),
    {
        let table = RotationTable::new();
        let ghost history = History { initial: Map::<Seq<char>, usize>::empty() };
        assert(table@ == table_after_all(history.initial, Seq::<Selection>::empty()));
        MultiFileIndexMap { table: Arc::new(RwLock::new(table, Ghost(history))) }
    }

    /// The lock that guards the table.
    pub closed spec fn lock(&self) -> RwLock<RotationTable, History> {
        *self.table
    }

    /// The table as it was when it was made. At any time the shared table
    /// holds what selections have made of this one.
    pub open spec fn initial(&self) -> Map<Seq<char>, usize> {
        self.lock().pred().initial
    }

    /// Another handle to the same table.
    pub fn share(&self) -> (shared: MultiFileIndexMap)
        ensures
            shared.lock() == self.lock(),
    {
        MultiFileIndexMap { table: self.table.clone() }
    }

    /// The record for `directory` at the time of the call: its record in
    /// the table that the selections made so far, through any handle, have
    /// led to.
    pub fn stored(&self, directory: &str) -> (index: usize)
        ensures
            exists|trace: Seq<Selection>|
                index == stored_index(
                    #[trigger] table_after_all(self.initial(), trace),
                    directory@,
                ),
    {
        let handle = self.table.acquire_read();
        let index: usize = handle.borrow().stored(directory);
        proof {
            let trace = choose|trace: Seq<Selection>|
                handle.view()@ == #[trigger] table_after_all(self.initial(), trace);
            assert(index == stored_index(table_after_all(self.initial(), trace), directory@));
        }
        handle.release_read();
        index
    }

    /// Picks the file of `candidates` that is `directory`'s turn in the
    /// shared table and moves the directory's record past it, as one step
    /// under the lock. Other requests may have moved the record before: the
    /// file is the one that [`selected`] gives for the table as the lock held it.
    pub fn select(&self, directory: &str, candidates: &Vec<String>) -> (picked: Result<
        String,
        Error,
    >)
        ensures
            exists|table: Map<Seq<char>, usize>|
                outcome(picked) == #[trigger] selected(table, directory@, views(candidates@)),
    {
        let (mut table, handle) = self.table.acquire_write();
        let ghost before = table@;
        let picked = table.select(directory, candidates);
        proof {
            let earlier = choose|trace: Seq<Selection>|
                before == #[trigger] table_after_all(self.initial(), trace);
            let step = Selection { directory: directory@, count: candidates@.len() };
            let trace = earlier.push(step);
            assert(trace.drop_last() =~= earlier);
            assert(table@ == table_after_all(self.initial(), trace));
        }
        handle.release_write(table);
        assert(outcome(picked) == selected(before, directory@, views(candidates@)));
        picked
    }
}

/// The table after `n` selections in a row for `directory`, each among
/// `count` files.
pub open spec fn table_after_repeated(
    table: Map<Seq<char>, usize>,
    directory: Seq<char>,
    count: nat,
    n: nat,
) -> Map<Seq<char>, usize>
    decreases n,
{
    if n == 0 {
        table
    } else {
        table_after(table_after_repeated(table, directory, count, (n - 1) as nat), directory, count)
    }
}

/// A request as the table sees it: the directory it resolved to, and how
/// many files answer it there.
pub struct Selection {
    pub directory: Seq<char>,
    pub count: nat,
}

/// The table after the selections of `trace`, one after the other.
pub open spec fn table_after_all(table: Map<Seq<char>, usize>, trace: Seq<Selection>) -> Map<
    Seq<char>,
    usize,
>
    decreases trace.len(),
{
    if trace.len() == 0 {
        table
    } else {
        table_after(
            table_after_all(table, trace.drop_last()),
            trace.last().directory,
            trace.last().count,
        )
    }
}

/// How many selections of `trace` are for `directory`.
pub open spec fn selections_for(trace: Seq<Selection>, directory: Seq<char>) -> nat
    decreases trace.len(),
{
    if trace.len() == 0 {
        0
    } else {
        selections_for(trace.drop_last(), directory) + if trace.last().directory == directory {
            1nat
        } else {
            0nat
        }
    }
}

/// The index that is served lies among the files on offer.
pub proof fn lemma_served_index_in_range(stored: nat, count: nat)
    requires
        count > 0,
    ensures
        normalized(stored, count) < count,
{
}

/// One selection moves the served index one step round the files.
pub proof fn lemma_selection_steps(
    table: Map<Seq<char>, usize>,
    directory: Seq<char>,
    count: nat,
)
    requires
        0 < count <= usize::MAX,
    ensures
        normalized(stored_index(table_after(table, directory, count), directory), count) == (
        normalized(stored_index(table, directory), count) + 1) % count,
        stored_index(table_after(table, directory, count), directory) == normalized(
            stored_index(table, directory),
            count,
        ) + 1,
{
    let served = normalized(stored_index(table, directory), count);
    if served + 1 == count {
        lemma_mod_self_0(count as int);
    } else {
        lemma_small_mod(served + 1, count);
    }
}

/// A selection for one directory leaves the record of every other directory
/// as it was, and selections for two directories may come in either order.
pub proof fn lemma_directories_are_independent(
    table: Map<Seq<char>, usize>,
    first: Selection,
    second: Selection,
)
    requires
        first.directory != second.directory,
    ensures
        stored_index(table_after(table, first.directory, first.count), second.directory)
            == stored_index(table, second.directory),
        table_after(
            table_after(table, first.directory, first.count),
            second.directory,
            second.count,
        ) == table_after(
            table_after(table, second.directory, second.count),
            first.directory,
            first.count,
        ),
{
    assert(table_after(
        table_after(table, first.directory, first.count),
        second.directory,
        second.count,
    ) =~= table_after(
        table_after(table, second.directory, second.count),
        first.directory,
        first.count,
    ));
}

/// Round robin: with the same files on offer each time, selection number
/// `n` (counted from 0) returns the file `n` steps round from the one that
/// the first selection returns; after as many selections as there are files
/// the first file comes again.
pub proof fn lemma_round_robin(
    table: Map<Seq<char>, usize>,
    directory: Seq<char>,
    candidates: Seq<Seq<char>>,
    n: nat,
)
    requires
        0 < candidates.len() <= usize::MAX,
    ensures
        selected(
            table_after_repeated(table, directory, candidates.len(), n),
            directory,
            candidates,
        ) == Ok::<Seq<char>, ErrorModel>(
            candidates[((normalized(stored_index(table, directory), candidates.len()) + n)
                % candidates.len()) as int],
        ),
        normalized(
            stored_index(table_after_repeated(table, directory, candidates.len(), n), directory),
            candidates.len(),
        ) == (normalized(stored_index(table, directory), candidates.len()) + n)
            % candidates.len(),
    decreases n,
{
    let count = candidates.len();
    let start = normalized(stored_index(table, directory), count);
    if n == 0 {
        lemma_small_mod(start, count);
    } else {
        let before = table_after_repeated(table, directory, count, (n - 1) as nat);
        lemma_round_robin(table, directory, candidates, (n - 1) as nat);
        lemma_selection_steps(before, directory, count);
        lemma_add_mod_noop(start + n - 1, 1, count as int);
        if count == 1 {
            lemma_mod_self_0(1);
        } else {
            lemma_small_mod(1, count);
        }
    }
}

/// Self-healing: a record that has run past the files on offer is served as
/// the first file, and the record after the selection is 1.
pub proof fn lemma_stale_record_restarts(
    table: Map<Seq<char>, usize>,
    directory: Seq<char>,
    candidates: Seq<Seq<char>>,
)
    requires
        0 < candidates.len() <= usize::MAX,
        stored_index(table, directory) >= candidates.len(),
    ensures
        selected(table, directory, candidates) == Ok::<Seq<char>, ErrorModel>(candidates[0]),
        stored_index(table_after(table, directory, candidates.len()), directory) == 1,
{
}

/// A directory without a file for the method yields the not-found failure
/// and leaves the table as it was.
pub proof fn lemma_nothing_to_select(table: Map<Seq<char>, usize>, directory: Seq<char>)
    ensures
        selected(table, directory, Seq::<Seq<char>>::empty()) == Err::<Seq<char>, ErrorModel>(
            ErrorModel { kind: ErrorKind::NotFound, message: no_files_message() },
        ),
        table_after(table, directory, 0) == table,
{
}

/// No update is lost or doubled: however the selections for `directory`
/// are interleaved with selections for other directories, each of them moves
/// the directory's served index one step round its `count` files.
pub proof fn lemma_every_selection_counts(
    table: Map<Seq<char>, usize>,
    trace: Seq<Selection>,
    directory: Seq<char>,
    count: nat,
)
    requires
        0 < count <= usize::MAX,
        forall|i: int|
            0 <= i < trace.len() && (#[trigger] trace[i]).directory == directory ==> trace[i].count
                == count,
    ensures
        normalized(stored_index(table_after_all(table, trace), directory), count) == (normalized(
            stored_index(table, directory),
            count,
        ) + selections_for(trace, directory)) % count,
    decreases trace.len(),
{
    let start = normalized(stored_index(table, directory), count);
    if trace.len() == 0 {
        lemma_small_mod(start, count);
    } else {
        let earlier = trace.drop_last();
        let last = trace.last();
        assert forall|i: int| 0 <= i < earlier.len() && (#[trigger] earlier[i]).directory
            == directory implies earlier[i].count == count by {
            assert(earlier[i] == trace[i]);
        }
        lemma_every_selection_counts(table, earlier, directory, count);
        let before = table_after_all(table, earlier);
        if last.directory == directory {
            assert(last.count == count);
            lemma_selection_steps(before, directory, count);
            let steps = selections_for(earlier, directory);
            lemma_add_mod_noop((start + steps) as int, 1, count as int);
            if count == 1 {
                lemma_mod_self_0(1);
            } else {
                lemma_small_mod(1, count);
            }
        } else {
            lemma_directories_are_independent(
                before,
                last,
                Selection { directory, count },
            );
        }
    }
}

} // verus!
