//! The process supervisor's decision core.
//!
//! A [`ServerRunner`] owns the Active Table: the mapping from a logical
//! server identifier to the record of its live process. Every command is
//! applied to the table one at a time, in arrival order, by exactly one
//! owner. The surrounding event loop performs the operating-system work that
//! each decision calls for — killing, spawning, writing to a child's input —
//! and feeds process output back in as events; everything the table and the
//! per-process logs do is decided and proved here.
//!
//! The table holds, for each live identifier, the bounded log of that
//! process's console lines. The operating-system handles themselves (the
//! child process and its input pipe) live with the event loop, keyed by the
//! same identifiers; the loop installs and drops them exactly when the
//! methods here install and drop records.

use crate::configuration::Server;
use crate::log_buffer::{join_lines, push_evict, LogBuffer};
use std::collections::HashMap;
use vstd::prelude::*;

verus! {

broadcast use vstd::std_specs::hash::group_hash_axioms;

/// A command accepted by the supervisor, in the order its queue delivers
/// them. A query for output is answered through the outcome of handling the
/// command; every other command is fire-and-forget for the caller.
pub enum RunnerCommand {
    /// Start (or restart) the process for one server definition.
    StartServer { server: Server },
    /// Start each listed server in order.
    StartAll { servers: Vec<Server> },
    /// Kill and drop the record for one identifier; no-op if absent.
    StopServer { id: usize },
    /// Kill and drop every record.
    StopAll,
    /// Write a line to a live process's standard input, echoing it into the
    /// process's log; no-op if absent.
    IssueCommand { id: usize, command: String },
    /// Read the joined log of a live process.
    GetOutput { id: usize },
}

/// What the event loop must still do after a command's table work is done.
pub enum CommandOutcome {
    /// Launch each listed server in order: for each one, call
    /// [`ServerRunner::remove_server`], kill the old process if one was
    /// reported, create the working directory, spawn, and on success call
    /// [`ServerRunner::register_server`] and attach a reader to the output.
    Launch { servers: Vec<Server> },
    /// A stop was applied; kill the process whose record was dropped, if
    /// one existed.
    Stopped { existed: bool },
    /// Every record was dropped; kill each process that was registered.
    StoppedAll,
    /// Write `data` to the process's standard input and flush, if the
    /// record existed.
    Stdin { data: Option<String> },
    /// Hand `reply` to the caller that asked for output.
    Output { reply: Option<String> },
}

/// The logs held in a table, as mathematical values.
pub open spec fn logs_view(table: Map<usize, LogBuffer>) -> Map<usize, Seq<Seq<char>>> {
    table.map_values(|log: LogBuffer| log@)
}

proof fn lemma_logs_view_dom(table: Map<usize, LogBuffer>)
    ensures
        logs_view(table).dom() == table.dom(),
{
}

proof fn lemma_logs_view_index(table: Map<usize, LogBuffer>, id: usize)
    requires
        table.dom().contains(id),
    ensures
        logs_view(table)[id] == table[id]@,
{
}

proof fn lemma_logs_view_insert(table: Map<usize, LogBuffer>, id: usize, log: LogBuffer)
    ensures
        logs_view(table.insert(id, log)) == logs_view(table).insert(id, log@),
{
    assert(logs_view(table.insert(id, log)) =~= logs_view(table).insert(id, log@));
}

proof fn lemma_logs_view_remove(table: Map<usize, LogBuffer>, id: usize)
    ensures
        logs_view(table.remove(id)) == logs_view(table).remove(id),
{
    assert(logs_view(table.remove(id)) =~= logs_view(table).remove(id));
}

/// The supervisor's state: the Active Table, mapping each live logical
/// server identifier to the log of its process. Exactly one owner mutates
/// it, one command at a time.
pub struct ServerRunner {
    active: HashMap<usize, LogBuffer>,
}

impl View for ServerRunner {
    type V = Map<usize, Seq<Seq<char>>>;

    /// The table as a mathematical map from identifier to log contents.
    closed spec fn view(&self) -> Map<usize, Seq<Seq<char>>> {
        logs_view(self.active@)
    }
}

impl ServerRunner {
    /// Every held log respects the capacity bound.
    pub closed spec fn wf(&self) -> bool {
        forall|id: usize|
            self.active@.dom().contains(id) ==> (#[trigger] self.active@[id]).wf()
    }

    /// A supervisor with an empty table: no process is registered.
    pub fn new() -> (runner: ServerRunner)
        ensures
            runner@ == Map::<usize, Seq<Seq<char>>>::empty(),
            runner.wf(),
    {
        let runner = ServerRunner { active: HashMap::new() };
        proof {
            assert(runner@ =~= Map::<usize, Seq<Seq<char>>>::empty());
        }
        runner
    }

    /// Whether a record is registered for `id`.
    pub fn is_live(&self, id: usize) -> (live: bool)
        ensures
            live == self@.contains_key(id),
    {
        let live = self.active.contains_key(&id);
        proof {
            lemma_logs_view_dom(self.active@);
        }
        live
    }

    /// Drop the record for `id`, reporting whether one existed. Applied for
    /// a stop command, and as the teardown half of a start: exactly when a
    /// record existed, the caller owes the old process a kill before the
    /// new one is spawned.
    pub fn remove_server(&mut self, id: usize) -> (existed: bool)
        requires
            old(self).wf(),
        ensures
            final(self).wf(),
            final(self)@ == old(self)@.remove(id),
            existed == old(self)@.contains_key(id),
    {
        let removed = self.active.remove(&id);
        proof {
            lemma_logs_view_remove(old(self).active@, id);
            lemma_logs_view_dom(old(self).active@);
        }
        removed.is_some()
    }

    /// Install a fresh record for `id` with an empty log: the bookkeeping
    /// for a process that was just spawned. Any record still standing under
    /// the identifier is replaced.
    pub fn register_server(&mut self, id: usize)
        requires
            old(self).wf(),
        ensures
            final(self).wf(),
            final(self)@ == old(self)@.insert(id, Seq::<Seq<char>>::empty()),
    {
        let fresh = LogBuffer::new();
        proof {
            lemma_logs_view_insert(old(self).active@, id, fresh);
        }
        let _ = self.active.insert(id, fresh);
    }

    /// Drop every record: the table work of a stop-all command.
    pub fn remove_all(&mut self)
        ensures
            final(self).wf(),
            final(self)@ == Map::<usize, Seq<Seq<char>>>::empty(),
    {
        self.active.clear();
        proof {
            assert(self@ =~= Map::<usize, Seq<Seq<char>>>::empty());
        }
    }

    /// Append one line of process output to the log of `id`: the event a
    /// reader task reports for each complete line it sees. A line for an
    /// identifier with no record — output that raced a teardown — is
    /// dropped.
    pub fn record_output(&mut self, id: usize, line: String)
        requires
            old(self).wf(),
        ensures
            final(self).wf(),
            old(self)@.contains_key(id) ==> final(self)@ == old(self)@.insert(
                id,
                push_evict(old(self)@[id], line@),
            ),
            !old(self)@.contains_key(id) ==> final(self)@ == old(self)@,
    {
        proof {
            lemma_logs_view_dom(old(self).active@);
        }
        match self.active.remove(&id) {
            Some(mut log) => {
                proof {
                    lemma_logs_view_index(old(self).active@, id);
                }
                log.append(line);
                let _ = self.active.insert(id, log);
                proof {
                    lemma_logs_view_remove(old(self).active@, id);
                    lemma_logs_view_insert(old(self).active@.remove(id), id, log);
                    assert(old(self)@.remove(id).insert(id, push_evict(old(self)@[id], line@))
                        =~= old(self)@.insert(id, push_evict(old(self)@[id], line@)));
                }
            },
            None => {
                proof {
                    lemma_logs_view_remove(old(self).active@, id);
                    assert(old(self)@.remove(id) =~= old(self)@);
                }
            },
        }
    }

    /// The table work of an issued operator command: echo the command text
    /// into the process's log and hand back the line to write to the
    /// process's standard input — the text with a newline appended — if a
    /// record exists. Absence is a no-op, not an error.
    pub fn issue_command(&mut self, id: usize, command: String) -> (data: Option<String>)
        requires
            old(self).wf(),
        ensures
            final(self).wf(),
            old(self)@.contains_key(id) ==> {
                &&& final(self)@ == old(self)@.insert(id, push_evict(old(self)@[id], command@))
                &&& data matches Some(line) && line@ == command@ + seq!['\n']
            },
            !old(self)@.contains_key(id) ==> final(self)@ == old(self)@ && data is None,
    {
        proof {
            lemma_logs_view_dom(self.active@);
        }
        if self.active.contains_key(&id) {
            let mut line = command.clone();
            line.append("\n");
            proof {
                reveal_strlit("\n");
                assert(line@ =~= command@ + seq!['\n']);
            }
            self.record_output(id, command);
            Some(line)
        } else {
            None
        }
    }

    /// The reply to an output query: the process's whole log joined with
    /// newlines, or nothing when no record exists for the identifier. A
    /// live process that has produced no output yet yields the empty
    /// string, distinct from absence.
    pub fn get_output(&self, id: usize) -> (reply: Option<String>)
        ensures
            match reply {
                Some(text) => self@.contains_key(id) && text@ == join_lines(self@[id]),
                None => !self@.contains_key(id),
            },
    {
        proof {
            lemma_logs_view_dom(self.active@);
        }
        match self.active.get(&id) {
            Some(log) => {
                proof {
                    lemma_logs_view_index(self.active@, id);
                }
                Some(log.render())
            },
            None => None,
        }
    }

    /// Apply one command's table work, in the order the queue delivered it,
    /// and say what the event loop must do to finish the command. Start
    /// commands leave the table untouched here: each listed server is then
    /// launched one at a time through [`Self::remove_server`] and
    /// [`Self::register_server`], so that a spawn failure leaves its
    /// identifier with no record while the rest still start.
    pub fn handle_command(&mut self, cmd: RunnerCommand) -> (outcome: CommandOutcome)
        requires
            old(self).wf(),
        ensures
            final(self).wf(),
            match cmd {
                RunnerCommand::StartServer { server } => {
                    &&& final(self)@ == old(self)@
                    &&& outcome matches CommandOutcome::Launch { servers } && servers@ == seq![
                        server,
                    ]
                },
                RunnerCommand::StartAll { servers } => {
                    &&& final(self)@ == old(self)@
                    &&& outcome matches CommandOutcome::Launch { servers: launch } && launch
                        == servers
                },
                RunnerCommand::StopServer { id } => {
                    &&& final(self)@ == old(self)@.remove(id)
                    &&& outcome matches CommandOutcome::Stopped { existed } && existed == old(
                        self,
                    )@.contains_key(id)
                },
                RunnerCommand::StopAll => {
                    &&& final(self)@ == Map::<usize, Seq<Seq<char>>>::empty()
                    &&& outcome is StoppedAll
                },
                RunnerCommand::IssueCommand { id, command } => {
                    &&& old(self)@.contains_key(id) ==> {
                        &&& final(self)@ == old(self)@.insert(
                            id,
                            push_evict(old(self)@[id], command@),
                        )
                        &&& outcome matches CommandOutcome::Stdin { data: Some(line) } && line@
                            == command@ + seq!['\n']
                    }
                    &&& !old(self)@.contains_key(id) ==> final(self)@ == old(self)@ && (
                    outcome matches CommandOutcome::Stdin { data: None })
                },
                RunnerCommand::GetOutput { id } => {
                    &&& final(self)@ == old(self)@
                    &&& outcome matches CommandOutcome::Output { reply } && (match reply {
                        Some(text) => old(self)@.contains_key(id) && text@ == join_lines(
                            old(self)@[id],
                        ),
                        None => !old(self)@.contains_key(id),
                    })
                },
            },
    {
        match cmd {
            RunnerCommand::StartServer { server } => {
                let mut servers: Vec<Server> = Vec::new();
                servers.push(server);
                proof {
                    assert(servers@ =~= seq![server]);
                }
                CommandOutcome::Launch { servers }
            },
            RunnerCommand::StartAll { servers } => CommandOutcome::Launch { servers },
            RunnerCommand::StopServer { id } => {
                let existed = self.remove_server(id);
                CommandOutcome::Stopped { existed }
            },
            RunnerCommand::StopAll => {
                self.remove_all();
                CommandOutcome::StoppedAll
            },
            RunnerCommand::IssueCommand { id, command } => {
                let data = self.issue_command(id, command);
                CommandOutcome::Stdin { data }
            },
            RunnerCommand::GetOutput { id } => {
                let reply = self.get_output(id);
                CommandOutcome::Output { reply }
            },
        }
    }
}

/// The table after a sequence of successful starts, applied in order: each
/// start first drops whatever record its identifier had, then installs a
/// fresh one with an empty log — the transitions of
/// [`ServerRunner::remove_server`] and [`ServerRunner::register_server`].
pub open spec fn after_starts(table: Map<usize, Seq<Seq<char>>>, ids: Seq<usize>) -> Map<
    usize,
    Seq<Seq<char>>,
>
    decreases ids.len(),
{
    if ids.len() == 0 {
        table
    } else {
        after_starts(table, ids.drop_last()).remove(ids.last()).insert(
            ids.last(),
            Seq::empty(),
        )
    }
}

/// One start installs exactly one record: dropping the old record and then
/// registering the fresh one leaves the same table as a plain registration,
/// so no identifier can ever carry two records.
pub proof fn lemma_start_installs_one(table: Map<usize, Seq<Seq<char>>>, id: usize)
    ensures
        table.remove(id).insert(id, Seq::<Seq<char>>::empty()) == table.insert(
            id,
            Seq::<Seq<char>>::empty(),
        ),
{
    assert(table.remove(id).insert(id, Seq::<Seq<char>>::empty()) =~= table.insert(
        id,
        Seq::<Seq<char>>::empty(),
    ));
}

/// Processing any sequence of start commands leaves exactly one record per
/// started identifier — each holding a fresh, empty log — and neither adds,
/// drops nor alters a record for any identifier that was not started.
pub proof fn lemma_starts_register_each(table: Map<usize, Seq<Seq<char>>>, ids: Seq<usize>)
    ensures
        forall|i: int|
            0 <= i < ids.len() ==> #[trigger] after_starts(table, ids).contains_key(ids[i]),
        forall|i: int|
            0 <= i < ids.len() ==> #[trigger] after_starts(table, ids)[ids[i]] == Seq::<
                Seq<char>,
            >::empty(),
        forall|id: usize|
            !ids.contains(id) ==> #[trigger] after_starts(table, ids).contains_key(id)
                == table.contains_key(id),
        forall|id: usize|
            !ids.contains(id) && table.contains_key(id) ==> #[trigger] after_starts(table, ids)[id]
                == table[id],
    decreases ids.len(),
{
    if ids.len() > 0 {
        let front = ids.drop_last();
        let last = ids.last();
        let before = after_starts(table, front);
        let after = after_starts(table, ids);
        lemma_starts_register_each(table, front);
        assert forall|id: usize| front.contains(id) implies ids.contains(id) by {
            let k = choose|k: int| 0 <= k < front.len() && front[k] == id;
            assert(ids[k] == id);
        }
        assert(ids[ids.len() - 1] == last);
        assert forall|i: int| 0 <= i < ids.len() implies #[trigger] after.contains_key(
            ids[i],
        ) by {
            if i < ids.len() - 1 && ids[i] != last {
                assert(front[i] == ids[i]);
                assert(before.contains_key(front[i]));
            }
        }
        assert forall|i: int| 0 <= i < ids.len() implies #[trigger] after[ids[i]] == Seq::<
            Seq<char>,
        >::empty() by {
            if i < ids.len() - 1 && ids[i] != last {
                assert(front[i] == ids[i]);
                assert(before.contains_key(front[i]));
                assert(before[front[i]] == Seq::<Seq<char>>::empty());
            }
        }
        assert forall|id: usize| !ids.contains(id) implies {
            &&& #[trigger] after.contains_key(id) == table.contains_key(id)
            &&& (table.contains_key(id) ==> after[id] == table[id])
        } by {
            assert(!front.contains(id));
            assert(id != last);
            assert(before.contains_key(id) == table.contains_key(id));
            if table.contains_key(id) {
                assert(before[id] == table[id]);
            }
        }
    }
}

/// Starting an identifier that is already registered supersedes the old
/// record: the teardown step finds it — which is exactly when the event
/// loop is told to kill the old process — and the table afterwards holds
/// one fresh record for the identifier, nothing more.
pub proof fn lemma_restart_supersedes(table: Map<usize, Seq<Seq<char>>>, id: usize)
    ensures
        table.insert(id, Seq::<Seq<char>>::empty()).contains_key(id),
        table.insert(id, Seq::<Seq<char>>::empty()).remove(id).insert(
            id,
            Seq::<Seq<char>>::empty(),
        ) == table.insert(id, Seq::<Seq<char>>::empty()),
{
    lemma_start_installs_one(table.insert(id, Seq::<Seq<char>>::empty()), id);
}

/// A freshly started process that has produced no output yet renders as the
/// empty string — unlike an identifier with no record at all, whose query
/// yields no text.
pub proof fn lemma_fresh_output_is_empty_string()
    ensures
        join_lines(Seq::<Seq<char>>::empty()) == Seq::<char>::empty(),
{
}

/// After a stop-all empties the table, a query for any identifier —
/// whether it was running before or not — finds no record, so it is
/// answered with absence.
pub proof fn lemma_stop_all_reports_absent(id: usize)
    ensures
        !Map::<usize, Seq<Seq<char>>>::empty().contains_key(id),
{
}

proof fn lemma_join_lines_suffix(log: Seq<Seq<char>>)
    requires
        log.len() >= 1,
    ensures
        join_lines(log).len() >= log.last().len(),
        join_lines(log).subrange(
            join_lines(log).len() - log.last().len(),
            join_lines(log).len() as int,
        ) == log.last(),
{
    if log.len() == 1 {
        assert(join_lines(log) == log[0]);
        assert(join_lines(log).subrange(
            join_lines(log).len() - log.last().len(),
            join_lines(log).len() as int,
        ) =~= log.last());
    } else {
        let joined = join_lines(log.drop_last()) + seq!['\n'] + log.last();
        assert(join_lines(log) == joined);
        assert(joined.subrange(joined.len() - log.last().len(), joined.len() as int)
            =~= log.last());
    }
}

/// A command issued to a live process is visible in the output a later
/// query returns: the echo into the log makes the command text a suffix of
/// the joined text.
pub proof fn lemma_issued_command_in_output(log: Seq<Seq<char>>, command: Seq<char>)
    ensures
        join_lines(push_evict(log, command)).len() >= command.len(),
        join_lines(push_evict(log, command)).subrange(
            join_lines(push_evict(log, command)).len() - command.len(),
            join_lines(push_evict(log, command)).len() as int,
        ) == command,
{
    let after = push_evict(log, command);
    assert(after.last() == command);
    lemma_join_lines_suffix(after);
}

} // verus!
