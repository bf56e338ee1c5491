//! What the settings of the program lead to, and what it keeps of messages.

use vstd::prelude::*;

use crate::cli::without_empty_watches;
use crate::config::ProjectView;
use crate::hmr_websocket::Connection;
use crate::hmr_websocket::message_outcome;
use crate::json::JsonView;
use crate::json::field_of;
use crate::logging::Level;
use crate::logging::asks_for;
use crate::logging::shows;

verus! {

/// Watches are left out of a project exactly where none of them names a path, a pattern to be
/// included or one to be excluded. Nothing else of it changes.
pub proof fn lemma_empty_watches(p: ProjectView)
    ensures
        ({
            let after = without_empty_watches(p);
            &&& match p.watches {
                None => after.watches is None,
                Some(w) => if forall|i: int|
                    0 <= i < w.len() ==> (#[trigger] w[i]).path is None && w[i].includes is None
                        && w[i].exclude is None {
                    after.watches is None
                } else {
                    after.watches == Some(w)
                },
            }
            &&& after.name == p.name
            &&& after.path == p.path
            &&& after.depends_on == p.depends_on
            &&& after.commands == p.commands
        }),
{
}

/// With a level that the user gave, exactly the messages of that level and the weightier ones
/// are shown. Without, errors and warnings are, and information that is output of a command.
pub proof fn lemma_shown_messages(message: Level, fields: Seq<Seq<char>>)
    ensures
        shows(Some(Level::Error), message, fields) <==> message is Error,
        shows(Some(Level::Warn), message, fields) <==> message is Error || message is Warn,
        shows(Some(Level::Info), message, fields) <==> message is Error || message is Warn
            || message is Info,
        shows(Some(Level::Debug), message, fields) <==> !(message is Trace),
        shows(Some(Level::Trace), message, fields),
        shows(None, message, fields) <==> message is Error || message is Warn || (message is Info
            && exists|i: int|
            0 <= i < fields.len() && (#[trigger] fields[i] == "stdout"@ || fields[i]
                == "stderr"@)),
{
    if message is Info && shows(None, message, fields) {
        let i = choose|i: int|
            0 <= i < fields.len() && crate::logging::is_output_field(#[trigger] fields[i]);
        assert(fields[i] == "stdout"@ || fields[i] == "stderr"@);
    }
    if exists|i: int|
        0 <= i < fields.len() && (#[trigger] fields[i] == "stdout"@ || fields[i] == "stderr"@) {
        let i = choose|i: int|
            0 <= i < fields.len() && (#[trigger] fields[i] == "stdout"@ || fields[i]
                == "stderr"@);
        assert(crate::logging::is_output_field(fields[i]));
    }
}

/// Whether a text is a word of lower-case letters, in whatever case each letter is written.
pub open spec fn spells(s: Seq<char>, word: Seq<char>) -> bool {
    &&& s.len() == word.len()
    &&& forall|i: int|
        0 <= i < s.len() ==> (#[trigger] s[i] == word[i] || ('A' <= s[i] <= 'Z' && s[i] as int + 32
            == word[i] as int))
}

/// Each level is asked for by its name, in whatever case, and warnings also by their long name.
pub proof fn lemma_levels_by_name(s: Seq<char>)
    ensures
        spells(s, "error"@) ==> asks_for(s, Level::Error),
        spells(s, "warn"@) ==> asks_for(s, Level::Warn),
        spells(s, "warning"@) ==> asks_for(s, Level::Warn),
        spells(s, "info"@) ==> asks_for(s, Level::Info),
        spells(s, "debug"@) ==> asks_for(s, Level::Debug),
        spells(s, "trace"@) ==> asks_for(s, Level::Trace),
{
    reveal_strlit("error");
    reveal_strlit("warn");
    reveal_strlit("warning");
    reveal_strlit("info");
    reveal_strlit("debug");
    reveal_strlit("trace");
    lemma_spells(s, "error"@);
    lemma_spells(s, "warn"@);
    lemma_spells(s, "warning"@);
    lemma_spells(s, "info"@);
    lemma_spells(s, "debug"@);
    lemma_spells(s, "trace"@);
}

proof fn lemma_spells(s: Seq<char>, word: Seq<char>)
    requires
        forall|i: int| 0 <= i < word.len() ==> 'a' <= #[trigger] word[i] <= 'z',
    ensures
        spells(s, word) ==> crate::logging::is_word(s, word),
{
    let lower = s.map_values(|c: char| crate::logging::ascii_lower(c));
    if spells(s, word) {
        assert forall|i: int| 0 <= i < s.len() implies lower[i] == word[i] by {
            assert(lower[i] == crate::logging::ascii_lower(s[i]));
            assert('a' <= word[i] <= 'z');
            assert(s[i] == word[i] || ('A' <= s[i] <= 'Z' && s[i] as int + 32 == word[i] as int));
        }
        assert(lower =~= word);
    }
}

/// A connection becomes a client by a document with a name that is a text, is listened to
/// further after any other document, and is let go after what is no document.
pub proof fn lemma_connections(message: Option<JsonView>)
    ensures
        match message {
            None => message_outcome(message) == (Connection::Dropped, None::<Seq<char>>),
            Some(j) => match field_of(j, "name"@) {
                Some(JsonView::Str(name)) => message_outcome(message) == (
                    Connection::Registered,
                    Some(name),
                ),
                _ => message_outcome(message) == (Connection::Kept, None::<Seq<char>>),
            },
        },
{
}

/// The record of a running program keeps every line of a task behind those before it, and makes
/// room for one that it did not know. Only the order to quit ends it.
pub proof fn lemma_record(
    s: crate::state::StateView,
    task: String,
    line: String,
    other: Seq<char>,
)
    ensures
        ({
            let after = s.after(crate::state::StateEvent::Output { task_name: task, output: line });
            &&& after.outputs.contains_key(task@)
            &&& s.outputs.contains_key(task@) ==> after.outputs[task@] == s.outputs[task@].push(
                line@,
            )
            &&& !s.outputs.contains_key(task@) ==> after.outputs[task@] == seq![line@]
            &&& other != task@ ==> after.outputs.contains_key(other) == s.outputs.contains_key(
                other,
            )
            &&& other != task@ && s.outputs.contains_key(other) ==> after.outputs[other]
                == s.outputs[other]
            &&& after.statuses == s.statuses
            &&& after.tasks == s.tasks
            &&& after.running == s.running
        }),
        !s.after(crate::state::StateEvent::Quit).running,
        s.after(crate::state::StateEvent::Quit).outputs == s.outputs,
        s.after(crate::state::StateEvent::Quit).statuses == s.statuses,
        !crate::state::StateView::fresh().running,
        crate::state::StateView::fresh().tasks.len() == 0,
{
    let after = s.after(crate::state::StateEvent::Output { task_name: task, output: line });
    if !s.outputs.contains_key(task@) {
        assert(after.outputs[task@] =~= seq![line@]);
    }
}

/// Tasks that a record takes in are to be started and have printed nothing; all else stays.
pub proof fn lemma_record_takes_in(
    s: crate::state::StateView,
    names: Seq<Seq<char>>,
    n: int,
    task: Seq<char>,
)
    requires
        0 <= n <= names.len(),
    ensures
        ({
            let after = s.with_tasks(names, n);
            let taken = exists|i: int| 0 <= i < n && #[trigger] names[i] == task;
            &&& after.tasks == s.tasks + names.take(n)
            &&& taken ==> after.outputs.contains_key(task) && after.outputs[task].len() == 0
                && after.statuses.contains_key(task) && after.statuses[task] is Initialized
            &&& !taken ==> after.outputs.contains_key(task) == s.outputs.contains_key(task)
                && after.statuses.contains_key(task) == s.statuses.contains_key(task)
            &&& !taken && s.outputs.contains_key(task) ==> after.outputs[task] == s.outputs[task]
            &&& !taken && s.statuses.contains_key(task) ==> after.statuses[task]
                == s.statuses[task]
            &&& after.running == s.running
        }),
    decreases n,
{
    if n > 0 {
        lemma_record_takes_in(s, names, n - 1, task);
        assert(s.tasks + names.take(n) =~= (s.tasks + names.take(n - 1)).push(names[n - 1]));
        if exists|i: int| 0 <= i < n - 1 && #[trigger] names[i] == task {
            let i = choose|i: int| 0 <= i < n - 1 && #[trigger] names[i] == task;
            assert(names[i] == task);
        }
    } else {
        assert(s.tasks + names.take(0) =~= s.tasks);
    }
}

/// A record of known tasks keeps every line of theirs behind those before it and drops what an
/// unknown task prints. It keeps the last status that it was told of a task.
pub proof fn lemma_known_record(
    s: crate::test::RecordView,
    task: String,
    line: String,
    status: crate::test::TaskStatus,
    other: Seq<char>,
)
    ensures
        ({
            let after = s.after(crate::test::StateEvent::Output { task_name: task, output: line });
            &&& !s.outputs.contains_key(task@) ==> after == s
            &&& s.outputs.contains_key(task@) ==> after.outputs == s.outputs.insert(
                task@,
                s.outputs[task@].push(line@),
            ) && after.statuses == s.statuses && after.tasks == s.tasks && after.running
                == s.running
        }),
        ({
            let after = s.after(crate::test::StateEvent::Status { task_name: task, status });
            &&& after.statuses.contains_key(task@) && after.statuses[task@] == status
            &&& other != task@ ==> after.statuses.contains_key(other) == s.statuses.contains_key(
                other,
            )
            &&& other != task@ && s.statuses.contains_key(other) ==> after.statuses[other]
                == s.statuses[other]
            &&& after.outputs == s.outputs
            &&& after.running == s.running
        }),
        !s.after(crate::test::StateEvent::Quit).running,
        s.after(crate::test::StateEvent::Quit).outputs == s.outputs,
        s.after(crate::test::StateEvent::Quit).statuses == s.statuses,
        !crate::test::RecordView::fresh().running,
        crate::test::RecordView::fresh().tasks.len() == 0,
{
}

/// Tasks that a record of known tasks takes in are to be started and have printed nothing; all
/// else stays.
pub proof fn lemma_known_record_takes_in(
    s: crate::test::RecordView,
    names: Seq<Seq<char>>,
    n: int,
    task: Seq<char>,
)
    requires
        0 <= n <= names.len(),
    ensures
        ({
            let after = s.with_tasks(names, n);
            let taken = exists|i: int| 0 <= i < n && #[trigger] names[i] == task;
            &&& after.tasks == s.tasks + names.take(n)
            &&& taken ==> after.outputs.contains_key(task) && after.outputs[task].len() == 0
                && after.statuses.contains_key(task) && after.statuses[task] is Initialized
            &&& !taken ==> after.outputs.contains_key(task) == s.outputs.contains_key(task)
                && after.statuses.contains_key(task) == s.statuses.contains_key(task)
            &&& !taken && s.outputs.contains_key(task) ==> after.outputs[task] == s.outputs[task]
            &&& !taken && s.statuses.contains_key(task) ==> after.statuses[task]
                == s.statuses[task]
            &&& after.running == s.running
        }),
    decreases n,
{
    if n > 0 {
        lemma_known_record_takes_in(s, names, n - 1, task);
        assert(s.tasks + names.take(n) =~= (s.tasks + names.take(n - 1)).push(names[n - 1]));
        if exists|i: int| 0 <= i < n - 1 && #[trigger] names[i] == task {
            let i = choose|i: int| 0 <= i < n - 1 && #[trigger] names[i] == task;
            assert(names[i] == task);
        }
    } else {
        assert(s.tasks + names.take(0) =~= s.tasks);
    }
}

} // verus!
