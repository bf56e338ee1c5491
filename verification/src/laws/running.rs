//! What becomes of a command that runs, and what it is given.

use vstd::prelude::*;

use crate::env::EnvDir;
use crate::env::assignment;
use crate::env::files_of;
use crate::env::name_len;
use crate::env::with_file;
use crate::env::with_files;
use crate::env::with_line;
use crate::env::with_lines;
use crate::laws::texts::is_bare;
use crate::laws::texts::is_blank;
use crate::laws::texts::lemma_blank;
use crate::laws::texts::lemma_trim_start;
use crate::laws::texts::lemma_trimmed;
use crate::task::CommandTypeView;
use crate::task::RunnableView;
use crate::task::TaskStatus;
use crate::task_runner::ExitOutcome;
use crate::task_runner::RunnerEvent;
use crate::task_runner::after_event;
use crate::task_runner::end_status;
use crate::task_runner::envs_of;
use crate::task_runner::with_log;
use crate::task_runner::with_status_of;
use crate::task_store::StoreView;
use crate::text;

verus! {

/// A command that nobody told to stop has succeeded where its process ended with success or went
/// on for too long, and has failed where its process ended without success or cannot be waited
/// for. One that was told to stop has stopped, and nothing else.
pub proof fn lemma_how_a_command_ends(outcome: ExitOutcome)
    ensures
        end_status(outcome, true) is Stopped,
        outcome == ExitOutcome::Exited(true) ==> end_status(outcome, false) is Successed,
        outcome == ExitOutcome::Exited(false) ==> end_status(outcome, false) is Failed,
        outcome == ExitOutcome::WaitFailed ==> end_status(outcome, false) is Failed,
        outcome == ExitOutcome::TimedOut ==> end_status(outcome, false) is Successed,
{
}

/// Whether `after` is `before` with one line more in the output of the command `id`.
pub open spec fn logs_one_more(
    before: StoreView,
    after: StoreView,
    id: Seq<char>,
    line: Seq<char>,
) -> bool {
    &&& after.logs.contains_key(id)
    &&& after.logs[id] == (if before.logs.contains_key(id) {
        before.logs[id].push(line)
    } else {
        seq![line]
    })
    &&& forall|other: Seq<char>|
        other != id ==> (#[trigger] after.logs.contains_key(other) == before.logs.contains_key(
            other,
        )) && (before.logs.contains_key(other) ==> after.logs[other] == before.logs[other])
    &&& after.tasks == before.tasks
    &&& after.statuses == before.statuses
    &&& after.last_run_time == before.last_run_time
    &&& after.show_colors == before.show_colors
}

/// Every line of output is kept behind the mark of its stream, but for blank lines of the
/// standard output. Nothing else changes the output, and output changes nothing else.
pub proof fn lemma_what_an_event_leaves(s: StoreView, id: Seq<char>, event: RunnerEvent)
    ensures
        match event {
            RunnerEvent::Stdout(Some(line)) => {
                &&& is_blank(line@) ==> after_event(s, id, event) == s
                &&& !is_blank(line@) ==> logs_one_more(
                    s,
                    after_event(s, id, event),
                    id,
                    "[OUT]: "@ + line@,
                )
            },
            RunnerEvent::Stderr(Some(line)) => logs_one_more(
                s,
                after_event(s, id, event),
                id,
                "[ERR]: "@ + line@,
            ),
            RunnerEvent::Stdout(None) => after_event(s, id, event) == s,
            RunnerEvent::Stderr(None) => after_event(s, id, event) == s,
            RunnerEvent::Tick => after_event(s, id, event) == s,
            RunnerEvent::Interrupt => after_event(s, id, event) == s,
        },
{
    match event {
        RunnerEvent::Stdout(Some(line)) => {
            lemma_blank(line@);
            lemma_one_more(s, id, "[OUT]: "@ + line@);
        },
        RunnerEvent::Stderr(Some(line)) => {
            lemma_one_more(s, id, "[ERR]: "@ + line@);
        },
        _ => {},
    }
}

proof fn lemma_one_more(s: StoreView, id: Seq<char>, line: Seq<char>)
    ensures
        logs_one_more(s, with_log(s, id, line), id, line),
{
    let after = with_log(s, id, line);
    if !s.logs.contains_key(id) {
        assert(after.logs[id] =~= seq![line]);
    }
}

/// Setting the status of a command sets the one that is asked for by its id, and no other; the
/// output of commands and when tasks last ran stay.
pub proof fn lemma_status_alone(s: StoreView, id: Seq<char>, status: TaskStatus, other: Seq<char>)
    ensures
        with_status_of(s, id, status).statuses.contains_key(id),
        with_status_of(s, id, status).statuses[id] == status,
        other != id ==> with_status_of(s, id, status).statuses.contains_key(other)
            == s.statuses.contains_key(other),
        other != id && s.statuses.contains_key(other) ==> with_status_of(
            s,
            id,
            status,
        ).statuses[other] == s.statuses[other],
        with_status_of(s, id, status).logs == s.logs,
        with_status_of(s, id, status).last_run_time == s.last_run_time,
{
}

/// A command learns where its task is, how it is called, what it runs and where to send its
/// messages, and whether to show colors. Whatever else stands in its environment stays.
pub proof fn lemma_what_a_command_is_told(
    envs: Map<Seq<char>, Seq<char>>,
    cmd: RunnableView,
    port: u16,
    show_colors: bool,
    other: Seq<char>,
)
    ensures
        ({
            let all = envs_of(envs, cmd, port, show_colors);
            &&& all.contains_key("PLEXUS_TASK_PATH"@) && all["PLEXUS_TASK_PATH"@] == cmd.path
            &&& all.contains_key("PLEXUS_TASK_NAME"@) && all["PLEXUS_TASK_NAME"@] == cmd.name
            &&& all.contains_key("PLEXUS_PKG_NAME"@) && all["PLEXUS_PKG_NAME"@] == cmd.name
            &&& all.contains_key("PLEXUS_TASK_COMMAND"@) && all["PLEXUS_TASK_COMMAND"@] == (
            match cmd.command {
                CommandTypeView::Simple(script) => script,
                CommandTypeView::Plexus { name, command } => command,
            })
            &&& all.contains_key("PLEXUS_WS_URL"@) && all["PLEXUS_WS_URL"@] == "ws://localhost:"@
                + text::decimal(port as nat)
            &&& show_colors ==> all.contains_key("PLEXUS_SHOW_COLORS"@)
                && all["PLEXUS_SHOW_COLORS"@] == "1"@
            &&& !show_colors ==> (all.contains_key("PLEXUS_SHOW_COLORS"@) == envs.contains_key(
                "PLEXUS_SHOW_COLORS"@,
            ))
            &&& other != "PLEXUS_TASK_PATH"@ && other != "PLEXUS_TASK_NAME"@ && other
                != "PLEXUS_PKG_NAME"@ && other != "PLEXUS_TASK_COMMAND"@ && other
                != "PLEXUS_WS_URL"@ && other != "PLEXUS_SHOW_COLORS"@ ==> all.contains_key(other)
                == envs.contains_key(other) && (envs.contains_key(other) ==> all[other]
                == envs[other])
        }),
{
    reveal_strlit("PLEXUS_TASK_PATH");
    reveal_strlit("PLEXUS_TASK_NAME");
    reveal_strlit("PLEXUS_PKG_NAME");
    reveal_strlit("PLEXUS_TASK_COMMAND");
    reveal_strlit("PLEXUS_WS_URL");
    reveal_strlit("PLEXUS_SHOW_COLORS");
    assert("PLEXUS_TASK_PATH"@[12] != "PLEXUS_TASK_NAME"@[12]);
    assert("PLEXUS_TASK_PATH"@.len() == 16 && "PLEXUS_TASK_NAME"@.len() == 16);
    assert("PLEXUS_PKG_NAME"@.len() == 15 && "PLEXUS_TASK_COMMAND"@.len() == 19);
    assert("PLEXUS_WS_URL"@.len() == 13 && "PLEXUS_SHOW_COLORS"@.len() == 18);
}

/// Whether a text can be the name of an environment variable.
pub open spec fn is_variable(s: Seq<char>) -> bool {
    &&& s.len() > 0
    &&& !('0' <= s[0] <= '9')
    &&& forall|i: int|
        0 <= i < s.len() ==> ('A' <= #[trigger] s[i] <= 'Z' || '0' <= s[i] <= '9' || s[i] == '_')
}

proof fn lemma_name_len_of(name: Seq<char>, rest: Seq<char>)
    requires
        forall|i: int|
            0 <= i < name.len() ==> ('A' <= #[trigger] name[i] <= 'Z' || '0' <= name[i] <= '9'
                || name[i] == '_'),
        rest.len() > 0 ==> !('A' <= rest[0] <= 'Z' || '0' <= rest[0] <= '9' || rest[0] == '_'),
    ensures
        name_len(name + rest) == name.len(),
    decreases name.len(),
{
    let all = name + rest;
    if name.len() == 0 {
        assert(all =~= rest);
    } else {
        assert(all[0] == name[0]);
        let less = name.drop_first();
        assert(all.drop_first() =~= less + rest);
        assert forall|i: int| 0 <= i < less.len() implies ('A' <= #[trigger] less[i] <= 'Z' || '0'
            <= less[i] <= '9' || less[i] == '_') by {
            assert(less[i] == name[i + 1]);
        }
        lemma_name_len_of(less, rest);
    }
}

/// A line `NAME = value` of an environment file sets that variable to that value, however much
/// white space stands around the two, and no other variable.
pub proof fn lemma_assignment(
    envs: Map<Seq<char>, Seq<char>>,
    before: Seq<char>,
    name: Seq<char>,
    mid: Seq<char>,
    left: Seq<char>,
    value: Seq<char>,
    right: Seq<char>,
)
    requires
        is_blank(before),
        is_variable(name),
        is_blank(mid),
        is_blank(left),
        is_bare(value),
        is_blank(right),
    ensures
        with_line(envs, before + name + mid + seq!['='] + (left + value + right)) == envs.insert(
            name,
            value,
        ),
{
    let given = left + value + right;
    let rest = seq!['='] + given;
    let s = name + (mid + rest);
    let line = before + name + mid + seq!['='] + given;
    assert(line =~= before + s);
    assert(s[0] == name[0]);
    assert(!text::is_white(name[0]));
    lemma_trim_start(before, s);
    if (mid + rest).len() > 0 {
        if mid.len() > 0 {
            assert((mid + rest)[0] == mid[0]);
            assert(text::is_white(mid[0]));
        } else {
            assert((mid + rest)[0] == '=');
        }
    }
    lemma_name_len_of(name, mid + rest);
    assert(s.take(name.len() as int) =~= name);
    assert(s.skip(name.len() as int) =~= mid + rest);
    assert(rest[0] == '=');
    lemma_trim_start(mid, rest);
    assert(rest.skip(1) =~= given);
    assert(assignment(line) == Some((name, given)));
    lemma_trimmed(left, value, right);
    let at = before.len() as int;
    assert(line[at] == name[0]);
    lemma_blank(line);
    assert(!is_blank(line));
    let bare = text::trimmed(line);
    lemma_trimmed_head(s);
    reveal_strlit("#");
    assert(bare[0] == name[0]);
    assert("#"@[0] == '#');
    if text::begins_with(bare, "#"@) {
        assert(bare.take(1)[0] == bare[0]);
    }
}

proof fn lemma_trimmed_head(s: Seq<char>)
    requires
        s.len() > 0,
        !text::is_white(s[0]),
    ensures
        text::trim_end(s).len() > 0,
        text::trim_end(s)[0] == s[0],
    decreases s.len(),
{
    if text::is_white(s.last()) {
        assert(s.len() > 1);
        lemma_trimmed_head(s.drop_last());
    }
}

/// Blank lines and comments of an environment file set nothing, and neither does a line without
/// an equals sign.
pub proof fn lemma_nothing_assigned(
    envs: Map<Seq<char>, Seq<char>>,
    before: Seq<char>,
    rest: Seq<char>,
)
    requires
        is_blank(before),
    ensures
        with_line(envs, before) == envs,
        with_line(envs, before + seq!['#'] + rest) == envs,
        !rest.contains('=') ==> with_line(envs, rest) == envs,
{
    lemma_blank(before);
    let s = seq!['#'] + rest;
    let line = before + seq!['#'] + rest;
    assert(line =~= before + s);
    assert(s[0] == '#');
    lemma_trim_start(before, s);
    lemma_trimmed_head(s);
    reveal_strlit("#");
    let bare = text::trimmed(line);
    assert(bare.take(1) =~= "#"@);
    if !rest.contains('=') {
        let t = text::trim_start(rest);
        let n = name_len(t) as int;
        lemma_name_len_fits(t);
        let u = text::trim_start(t.skip(n));
        lemma_trim_start_within(rest);
        lemma_trim_start_within(t.skip(n));
        if u.len() > 0 && u[0] == '=' {
            let j = choose|j: int| 0 <= j < t.skip(n).len() && t.skip(n)[j] == u[0];
            assert(t[n + j] == '=');
            let k = choose|k: int| 0 <= k < rest.len() && rest[k] == t[n + j];
            assert(rest.contains('='));
        }
    }
}

proof fn lemma_name_len_fits(s: Seq<char>)
    ensures
        name_len(s) <= s.len(),
    decreases s.len(),
{
    if s.len() > 0 {
        lemma_name_len_fits(s.drop_first());
    }
}

proof fn lemma_trim_start_within(s: Seq<char>)
    ensures
        forall|i: int|
            0 <= i < text::trim_start(s).len() ==> exists|j: int|
                0 <= j < s.len() && s[j] == #[trigger] text::trim_start(s)[i],
    decreases s.len(),
{
    let t = text::trim_start(s);
    if s.len() > 0 && text::is_white(s[0]) {
        let rest = s.drop_first();
        lemma_trim_start_within(rest);
        assert forall|i: int| 0 <= i < t.len() implies exists|j: int|
            0 <= j < s.len() && s[j] == #[trigger] t[i] by {
            assert(t[i] == text::trim_start(rest)[i]);
            let j = choose|j: int|
                0 <= j < rest.len() && rest[j] == text::trim_start(rest)[i];
            assert(s[j + 1] == t[i]);
        }
    }
}

/// Of two lines that set a variable the later one counts.
pub proof fn lemma_later_line_wins(
    envs: Map<Seq<char>, Seq<char>>,
    lines: Seq<Seq<char>>,
    n: int,
    at: int,
    name: Seq<char>,
    value: Seq<char>,
)
    requires
        0 <= at < n <= lines.len(),
        forall|m: Map<Seq<char>, Seq<char>>| #[trigger]
            with_line(m, lines[at]) == m.insert(name, value),
        forall|k: int, m: Map<Seq<char>, Seq<char>>|
            at < k < n && m.contains_key(name) ==> (#[trigger] with_line(m, lines[k])).contains_key(
                name,
            ) && with_line(m, lines[k])[name] == m[name],
    ensures
        with_lines(envs, lines, n).contains_key(name),
        with_lines(envs, lines, n)[name] == value,
    decreases n,
{
    if n - 1 > at {
        lemma_later_line_wins(envs, lines, n - 1, at, name, value);
        let before = with_lines(envs, lines, n - 1);
        assert(with_line(before, lines[n - 1]).contains_key(name));
    } else {
        let before = with_lines(envs, lines, n - 1);
        assert(with_line(before, lines[at]) == before.insert(name, value));
    }
}

/// A variable has the value that the last file that sets it gives it. One that no file sets
/// stays as it was, and a file that is not there sets nothing.
pub proof fn lemma_last_file_counts(
    envs: Map<Seq<char>, Seq<char>>,
    files: Seq<Option<Seq<char>>>,
    n: int,
    at: int,
    name: Seq<char>,
)
    requires
        -1 <= at < n <= files.len(),
        at >= 0 ==> (files[at] matches Some(c) && with_file(Map::empty(), c).contains_key(name)),
        forall|k: int|
            at < k < n ==> (#[trigger] files[k] matches Some(c) ==> !with_file(
                Map::empty(),
                c,
            ).contains_key(name)),
    ensures
        at >= 0 ==> with_files(envs, files, n).contains_key(name) && with_files(
            envs,
            files,
            n,
        )[name] == with_file(Map::empty(), files[at]->0)[name],
        at < 0 ==> with_files(envs, files, n).contains_key(name) == envs.contains_key(name) && (
        envs.contains_key(name) ==> with_files(envs, files, n)[name] == envs[name]),
    decreases n,
{
    if n > 0 {
        let before = with_files(envs, files, n - 1);
        if let Some(c) = files[n - 1] {
            crate::env::lemma_later_file_wins(before, c, name);
        }
        if n - 1 > at {
            lemma_last_file_counts(envs, files, n - 1, at, name);
        }
    }
}

/// What stands in the directory of a task counts more than what stands in the current one; in
/// each, what all commands read counts more than what one script reads, and of either the file
/// that is not local counts more. The files of a script are read for that script alone.
pub proof fn lemma_order_of_files(script: Seq<char>)
    ensures
        files_of(None).len() == 4,
        files_of(None)[0] == (EnvDir::Current, ".env.local"@),
        files_of(None)[1] == (EnvDir::Current, ".env"@),
        files_of(None)[2] == (EnvDir::Task, ".env.local"@),
        files_of(None)[3] == (EnvDir::Task, ".env"@),
        files_of(Some(script)).len() == 8,
        files_of(Some(script))[0] == (EnvDir::Current, ".env."@ + script + ".local"@),
        files_of(Some(script))[1] == (EnvDir::Current, ".env."@ + script),
        files_of(Some(script))[2] == (EnvDir::Current, ".env.local"@),
        files_of(Some(script))[3] == (EnvDir::Current, ".env"@),
        files_of(Some(script))[4] == (EnvDir::Task, ".env."@ + script + ".local"@),
        files_of(Some(script))[5] == (EnvDir::Task, ".env."@ + script),
        files_of(Some(script))[6] == (EnvDir::Task, ".env.local"@),
        files_of(Some(script))[7] == (EnvDir::Task, ".env"@),
{
}

} // verus!
