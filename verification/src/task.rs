//! Tasks and their commands: what a command is, in which status it can be, and the order in
//! which the commands of a task are shown.

use vstd::prelude::*;

use crate::config::ConfigCommand;
use crate::config::ConfigCommandView;
use crate::config::command_views;
use crate::text;

verus! {

/// How far a command has come.
#[derive(Debug, Clone, Copy, PartialEq, Eq, Structural)]
pub enum TaskStatus {
    Init,
    Starting,
    Running,
    Failed,
    Successed,
    Stopping,
    Stopped,
}

impl TaskStatus {
    /// The statuses from which nothing more comes by itself.
    pub open spec fn finished(self) -> bool {
        self is Failed || self is Successed || self is Stopped
    }

    /// Whether the command has ended, one way or another.
    pub fn is_finished(&self) -> (r: bool)
        ensures
            r == self.finished(),
    {
        matches!(self, TaskStatus::Failed | TaskStatus::Successed | TaskStatus::Stopped)
    }

    /// Whether the command runs.
    pub fn is_running(&self) -> (r: bool)
        ensures
            r == (*self is Running),
    {
        matches!(self, TaskStatus::Running)
    }

    /// Whether the command is about to run.
    pub fn is_starting(&self) -> (r: bool)
        ensures
            r == (*self is Starting),
    {
        matches!(self, TaskStatus::Starting)
    }

    /// Whether the command waits for its turn.
    pub fn is_init(&self) -> (r: bool)
        ensures
            r == (*self is Init),
    {
        matches!(self, TaskStatus::Init)
    }

    /// Whether the command has failed.
    pub fn is_failed(&self) -> (r: bool)
        ensures
            r == (*self is Failed),
    {
        matches!(self, TaskStatus::Failed)
    }

    /// Whether the command has succeeded.
    pub fn is_successed(&self) -> (r: bool)
        ensures
            r == (*self is Successed),
    {
        matches!(self, TaskStatus::Successed)
    }

    /// Whether the command has been told to stop.
    pub fn is_stopping(&self) -> (r: bool)
        ensures
            r == (*self is Stopping),
    {
        matches!(self, TaskStatus::Stopping)
    }

    /// Whether the command has been stopped.
    pub fn is_stopped(&self) -> (r: bool)
        ensures
            r == (*self is Stopped),
    {
        matches!(self, TaskStatus::Stopped)
    }

    /// How the status is shown.
    pub open spec fn shown(self) -> Seq<char> {
        match self {
            TaskStatus::Init => "TSInit"@,
            TaskStatus::Starting => "TSStarting"@,
            TaskStatus::Running => "TSRunning"@,
            TaskStatus::Failed => "TSFailed"@,
            TaskStatus::Successed => "TSSuccessed"@,
            TaskStatus::Stopping => "TSStopping"@,
            TaskStatus::Stopped => "TSStopped"@,
        }
    }

    /// How the status is shown.
    pub fn to_text(&self) -> (r: String)
        ensures
            r@ == self.shown(),
    {
        match self {
            TaskStatus::Init => "TSInit".to_owned(),
            TaskStatus::Starting => "TSStarting".to_owned(),
            TaskStatus::Running => "TSRunning".to_owned(),
            TaskStatus::Failed => "TSFailed".to_owned(),
            TaskStatus::Successed => "TSSuccessed".to_owned(),
            TaskStatus::Stopping => "TSStopping".to_owned(),
            TaskStatus::Stopped => "TSStopped".to_owned(),
        }
    }
}

/// Whether a task has something to show at the top of the list.
#[derive(Debug, Clone, Copy, PartialEq, Eq, Structural)]
pub enum InternalTaskStatus {
    Running,
    Other,
}

/// One script of a command that stands for several.
pub struct TaskPlexusCommand {
    pub name: String,
    pub command: String,
}

/// What a command of a task runs.
pub enum TaskCommandType {
    Simple(String),
    Plexus(TaskPlexusCommand),
}

/// What a [`TaskCommandType`] says.
pub enum CommandTypeView {
    Simple(Seq<char>),
    Plexus { name: Seq<char>, command: Seq<char> },
}

impl CommandTypeView {
    /// The name under which the command is known: two commands with the same label count as
    /// the same command, in whatever task they are.
    pub open spec fn label(self) -> Seq<char> {
        match self {
            CommandTypeView::Simple(s) => s,
            CommandTypeView::Plexus { name, .. } => name,
        }
    }

    /// The script that is run.
    pub open spec fn script(self) -> Seq<char> {
        match self {
            CommandTypeView::Simple(s) => s,
            CommandTypeView::Plexus { command, .. } => command,
        }
    }
}

impl View for TaskCommandType {
    type V = CommandTypeView;

    open spec fn view(&self) -> CommandTypeView {
        match *self {
            TaskCommandType::Simple(s) => CommandTypeView::Simple(s@),
            TaskCommandType::Plexus(p) => CommandTypeView::Plexus {
                name: p.name@,
                command: p.command@,
            },
        }
    }
}

impl Clone for TaskCommandType {
    fn clone(&self) -> (r: Self)
        ensures
            r@ == self@,
    {
        match self {
            TaskCommandType::Simple(s) => TaskCommandType::Simple(s.clone()),
            TaskCommandType::Plexus(p) => TaskCommandType::Plexus(
                TaskPlexusCommand { name: p.name.clone(), command: p.command.clone() },
            ),
        }
    }
}

impl TaskCommandType {
    /// The name under which the command is known.
    pub fn label(&self) -> (r: &String)
        ensures
            r@ == self@.label(),
    {
        match self {
            TaskCommandType::Simple(s) => s,
            TaskCommandType::Plexus(p) => &p.name,
        }
    }

    /// The script that is run.
    pub fn script(&self) -> (r: &String)
        ensures
            r@ == self@.script(),
    {
        match self {
            TaskCommandType::Simple(s) => s,
            TaskCommandType::Plexus(p) => &p.command,
        }
    }
}

impl PartialEq<str> for TaskCommandType {
    fn eq(&self, other: &str) -> (r: bool) {
        *self.label().as_str() == *other
    }
}

impl vstd::std_specs::cmp::PartialEqSpecImpl<str> for TaskCommandType {
    open spec fn obeys_eq_spec() -> bool {
        true
    }

    open spec fn eq_spec(&self, other: &str) -> bool {
        self@.label() == other@
    }
}

impl PartialEq<String> for TaskCommandType {
    fn eq(&self, other: &String) -> (r: bool) {
        *self.label() == *other
    }
}

impl vstd::std_specs::cmp::PartialEqSpecImpl<String> for TaskCommandType {
    open spec fn obeys_eq_spec() -> bool {
        true
    }

    open spec fn eq_spec(&self, other: &String) -> bool {
        self@.label() == other@
    }
}

/// One command of a task.
pub struct TaskCommand {
    pub _id: String,
    pub _command: TaskCommandType,
    pub _status: TaskStatus,
}

/// What a [`TaskCommand`] says.
#[verifier::ext_equal]
pub struct CommandView {
    pub id: Seq<char>,
    pub command: CommandTypeView,
    pub status: TaskStatus,
}

impl View for TaskCommand {
    type V = CommandView;

    open spec fn view(&self) -> CommandView {
        CommandView { id: self._id@, command: self._command@, status: self._status }
    }
}

impl Clone for TaskCommand {
    fn clone(&self) -> (r: Self)
        ensures
            r@ == self@,
    {
        TaskCommand {
            _id: self._id.clone(),
            _command: self._command.clone(),
            _status: self._status,
        }
    }
}

impl PartialEq for TaskCommand {
    fn eq(&self, other: &Self) -> (r: bool) {
        *self._command.label() == *other._command.label()
    }
}

impl vstd::std_specs::cmp::PartialEqSpecImpl for TaskCommand {
    open spec fn obeys_eq_spec() -> bool {
        true
    }

    open spec fn eq_spec(&self, other: &Self) -> bool {
        self@.command.label() == other@.command.label()
    }
}

impl PartialEq<str> for TaskCommand {
    fn eq(&self, other: &str) -> (r: bool) {
        *self._command.label().as_str() == *other
    }
}

impl vstd::std_specs::cmp::PartialEqSpecImpl<str> for TaskCommand {
    open spec fn obeys_eq_spec() -> bool {
        true
    }

    open spec fn eq_spec(&self, other: &str) -> bool {
        self@.command.label() == other@
    }
}

impl PartialEq<String> for TaskCommand {
    fn eq(&self, other: &String) -> (r: bool) {
        *self._command.label() == *other
    }
}

impl vstd::std_specs::cmp::PartialEqSpecImpl<String> for TaskCommand {
    open spec fn obeys_eq_spec() -> bool {
        true
    }

    open spec fn eq_spec(&self, other: &String) -> bool {
        self@.command.label() == other@
    }
}

/// What the commands of a list say.
pub open spec fn commands_view(v: Seq<TaskCommand>) -> Seq<CommandView> {
    v.map_values(|c: TaskCommand| c@)
}

/// The ids of commands.
pub open spec fn command_ids(v: Seq<CommandView>) -> Seq<Seq<char>> {
    v.map_values(|c: CommandView| c.id)
}

/// A task: a project with the commands that were asked for.
pub struct Task {
    pub _id: String,
    pub _name: String,
    pub _path: String,
    pub _commands: Vec<TaskCommand>,
    pub _parent_id: Option<String>,
    pub _children_id: Option<Vec<String>>,
}

/// What a [`Task`] says.
#[verifier::ext_equal]
pub struct TaskView {
    pub id: Seq<char>,
    pub name: Seq<char>,
    pub path: Seq<char>,
    pub commands: Seq<CommandView>,
    pub parent_id: Option<Seq<char>>,
    pub children_id: Option<Seq<Seq<char>>>,
}

impl View for Task {
    type V = TaskView;

    open spec fn view(&self) -> TaskView {
        TaskView {
            id: self._id@,
            name: self._name@,
            path: self._path@,
            commands: commands_view(self._commands@),
            parent_id: text::opt_text(self._parent_id),
            children_id: text::opt_texts(self._children_id),
        }
    }
}

/// A copy of a list of commands.
pub fn clone_commands(v: &Vec<TaskCommand>) -> (r: Vec<TaskCommand>)
    ensures
        commands_view(r@) == commands_view(v@),
{
    let r = v.clone();
    assert(commands_view(r@) =~= commands_view(v@));
    r
}

/// A copy of an optional list of strings.
pub fn clone_ids(v: &Option<Vec<String>>) -> (r: Option<Vec<String>>)
    ensures
        text::opt_texts(r) == text::opt_texts(*v),
{
    match v {
        Some(ids) => Some(text::clone_texts(ids)),
        None => None,
    }
}

impl Clone for Task {
    fn clone(&self) -> (r: Self)
        ensures
            r@ == self@,
    {
        Task {
            _id: self._id.clone(),
            _name: self._name.clone(),
            _path: self._path.clone(),
            _commands: clone_commands(&self._commands),
            _parent_id: self._parent_id.clone(),
            _children_id: clone_ids(&self._children_id),
        }
    }
}

/// A command with what its runner has to know of its task.
pub struct TaskCommandRunnable {
    pub _id: String,
    pub _task_id: String,
    pub _name: String,
    pub _command: TaskCommandType,
    pub _path: String,
}

/// What a [`TaskCommandRunnable`] says.
pub struct RunnableView {
    pub id: Seq<char>,
    pub task_id: Seq<char>,
    pub name: Seq<char>,
    pub command: CommandTypeView,
    pub path: Seq<char>,
}

impl View for TaskCommandRunnable {
    type V = RunnableView;

    open spec fn view(&self) -> RunnableView {
        RunnableView {
            id: self._id@,
            task_id: self._task_id@,
            name: self._name@,
            command: self._command@,
            path: self._path@,
        }
    }
}

/// The runnable form of a command of a task.
pub open spec fn runnable(cmd: CommandView, task: TaskView) -> RunnableView {
    RunnableView {
        id: cmd.id,
        task_id: task.id,
        name: task.name,
        command: cmd.command,
        path: task.path,
    }
}

impl TaskCommandRunnable {
    /// The runnable form of a command of a task.
    pub fn new(cmd: &TaskCommand, task: &Task) -> (r: Self)
        ensures
            r@ == runnable(cmd@, task@),
    {
        TaskCommandRunnable {
            _id: cmd._id.clone(),
            _task_id: task._id.clone(),
            _name: task._name.clone(),
            _command: cmd._command.clone(),
            _path: task._path.clone(),
        }
    }
}

/// A task with what the list shows of it beyond its commands.
pub struct TaskWithDetails {
    pub _id: String,
    pub _name: String,
    pub _path: String,
    pub _commands: Vec<TaskCommand>,
    pub _parent_id: Option<String>,
    pub _children_id: Option<Vec<String>>,
    pub _status: InternalTaskStatus,
    /// When a command of the task last ran, in nanoseconds since 1970.
    pub last_run_time: Option<i64>,
}

/// What a [`TaskWithDetails`] says.
pub struct DetailsView {
    pub task: TaskView,
    pub status: InternalTaskStatus,
    pub last_run_time: Option<i64>,
}

impl View for TaskWithDetails {
    type V = DetailsView;

    open spec fn view(&self) -> DetailsView {
        DetailsView {
            task: TaskView {
                id: self._id@,
                name: self._name@,
                path: self._path@,
                commands: commands_view(self._commands@),
                parent_id: text::opt_text(self._parent_id),
                children_id: text::opt_texts(self._children_id),
            },
            status: self._status,
            last_run_time: self.last_run_time,
        }
    }
}

impl Clone for TaskWithDetails {
    fn clone(&self) -> (r: Self)
        ensures
            r@ == self@,
    {
        TaskWithDetails {
            _id: self._id.clone(),
            _name: self._name.clone(),
            _path: self._path.clone(),
            _commands: clone_commands(&self._commands),
            _parent_id: self._parent_id.clone(),
            _children_id: clone_ids(&self._children_id),
            _status: self._status,
            last_run_time: self.last_run_time,
        }
    }
}

/// Whether command `a` is shown before command `b`: by label, and by id among those with the
/// same label.
pub open spec fn shown_before(a: CommandView, b: CommandView) -> bool {
    text::text_lt(a.command.label(), b.command.label()) || (a.command.label() == b.command.label()
        && text::text_lt(a.id, b.id))
}

/// Whether no command is shown before one that stands ahead of it.
pub open spec fn in_shown_order(s: Seq<CommandView>) -> bool {
    forall|i: int, j: int|
        0 <= i < j < s.len() ==> !shown_before(#[trigger] s[j], #[trigger] s[i])
}

/// `s` with `c` put in behind the last command that it is not shown before.
pub open spec fn put_in_order(s: Seq<CommandView>, c: CommandView) -> Seq<CommandView>
    decreases s.len(),
{
    if s.len() == 0 || !shown_before(c, s.last()) {
        s.push(c)
    } else {
        put_in_order(s.drop_last(), c).push(s.last())
    }
}

/// The commands of a task in the order in which they are shown.
pub open spec fn shown_commands(s: Seq<CommandView>) -> Seq<CommandView>
    decreases s.len(),
{
    if s.len() == 0 {
        Seq::empty()
    } else {
        put_in_order(shown_commands(s.drop_last()), s.last())
    }
}

proof fn lemma_put_in_order(s: Seq<CommandView>, c: CommandView, at: int)
    requires
        0 <= at <= s.len(),
        forall|k: int| at <= k < s.len() ==> shown_before(c, #[trigger] s[k]),
        at > 0 ==> !shown_before(c, s[at - 1]),
    ensures
        put_in_order(s, c) == s.insert(at, c),
    decreases s.len(),
{
    if at == s.len() {
        assert(s.push(c) =~= s.insert(at, c));
    } else {
        let less = s.drop_last();
        assert(shown_before(c, s[s.len() - 1]));
        assert forall|k: int| at <= k < less.len() implies shown_before(c, #[trigger] less[k]) by {
            assert(less[k] == s[k]);
        }
        lemma_put_in_order(less, c, at);
        assert(less.insert(at, c).push(s.last()) =~= s.insert(at, c));
    }
}

/// What the commands behind a list of references say.
pub open spec fn refs_view(v: Seq<&TaskCommand>) -> Seq<CommandView> {
    v.map_values(|c: &TaskCommand| c@)
}

fn is_before(a: &TaskCommand, b: &TaskCommand) -> (r: bool)
    ensures
        r == shown_before(a@, b@),
{
    let x = a._command.label().as_str();
    let y = b._command.label().as_str();
    if text::text_before(x, y) {
        return true;
    }
    *x == *y && text::text_before(a._id.as_str(), b._id.as_str())
}

proof fn lemma_before_trans(a: CommandView, b: CommandView, c: CommandView)
    requires
        !shown_before(b, a),
        !shown_before(c, b),
    ensures
        !shown_before(c, a),
{
    let (x, y, z) = (a.command.label(), b.command.label(), c.command.label());
    text::lemma_text_lt_total(x, y);
    text::lemma_text_lt_total(y, z);
    text::lemma_text_lt_total(x, z);
    text::lemma_text_lt_total(a.id, b.id);
    text::lemma_text_lt_total(b.id, c.id);
    text::lemma_text_lt_total(a.id, c.id);
    if text::text_lt(x, y) && text::text_lt(y, z) {
        text::lemma_text_lt_trans(x, y, z);
    }
    if text::text_lt(a.id, b.id) && text::text_lt(b.id, c.id) {
        text::lemma_text_lt_trans(a.id, b.id, c.id);
    }
}

/// The commands of a task in the order in which they are shown, whatever order they are
/// stored in. Everything that points at a command by its place goes through here.
pub fn sorted_commands(commands: &Vec<TaskCommand>) -> (out: Vec<&TaskCommand>)
    ensures
        refs_view(out@) == shown_commands(commands_view(commands@)),
        in_shown_order(refs_view(out@)),
        refs_view(out@).to_multiset() == commands_view(commands@).to_multiset(),
        out@.len() == commands@.len(),
{
    let mut out: Vec<&TaskCommand> = Vec::new();
    let mut i: usize = 0;
    assert(refs_view(out@) =~= commands_view(commands@).take(0));
    while i < commands.len()
        invariant
            i <= commands@.len(),
            out@.len() == i,
            refs_view(out@) == shown_commands(commands_view(commands@).take(i as int)),
            in_shown_order(refs_view(out@)),
            refs_view(out@).to_multiset() == commands_view(commands@).take(i as int).to_multiset(),
        decreases commands@.len() - i,
    {
        let c = &commands[i];
        let mut at: usize = out.len();
        while at > 0 && is_before(c, out[at - 1])
            invariant
                at <= out@.len(),
                forall|k: int| at <= k < out@.len() ==> shown_before(c@, #[trigger] out@[k]@),
            decreases at,
        {
            at -= 1;
        }
        let ghost before = out@;
        out.insert(at, c);
        proof {
            let old_view = refs_view(before);
            let new_view = refs_view(out@);
            assert(new_view =~= old_view.insert(at as int, c@));
            old_view.to_multiset_ensures();
            commands_view(commands@).take(i as int).to_multiset_ensures();
            assert(commands_view(commands@).take(i + 1) =~= commands_view(commands@).take(
                i as int,
            ).push(c@));
            vstd::seq_lib::to_multiset_insert(old_view, at as int, c@);
            assert forall|k: int| at <= k < old_view.len() implies shown_before(
                c@,
                #[trigger] old_view[k],
            ) by {
                assert(before[k]@ == old_view[k]);
            }
            if at > 0 {
                assert(old_view[at - 1] == before[at - 1]@);
            }
            lemma_put_in_order(old_view, c@, at as int);
            let next = commands_view(commands@).take(i + 1);
            assert(next.drop_last() =~= commands_view(commands@).take(i as int));
            assert(next.last() == c@);
            assert forall|a: int, b: int| 0 <= a < b < new_view.len() implies !shown_before(
                #[trigger] new_view[b],
                #[trigger] new_view[a],
            ) by {
                if at > 0 {
                    assert(old_view[at - 1] == before[at - 1]@);
                }
                if b == at {
                    assert(new_view[a] == old_view[a]);
                    if a < at - 1 {
                        lemma_before_trans(old_view[a], old_view[at - 1], c@);
                    }
                } else if a == at {
                    assert(new_view[b] == old_view[b - 1]);
                    assert(before[b - 1]@ == old_view[b - 1]);
                    lemma_before_asym(c@, old_view[b - 1]);
                } else {
                    let x = if a < at {
                        a
                    } else {
                        a - 1
                    };
                    let y = if b < at {
                        b
                    } else {
                        b - 1
                    };
                    assert(new_view[a] == old_view[x]);
                    assert(new_view[b] == old_view[y]);
                }
            }
        }
        i += 1;
    }
    assert(commands_view(commands@).take(i as int) =~= commands_view(commands@));
    out
}

proof fn lemma_before_asym(a: CommandView, b: CommandView)
    requires
        shown_before(a, b),
    ensures
        !shown_before(b, a),
{
    text::lemma_text_lt_total(a.command.label(), b.command.label());
    text::lemma_text_lt_total(a.id, b.id);
}

/// The commands of a task are shown in the same order however they are stored: two
/// arrangements of commands with distinct ids that are both in the order of
/// [`sorted_commands`] are the same.
pub proof fn lemma_shown_order_unique(a: Seq<CommandView>, b: Seq<CommandView>)
    requires
        in_shown_order(a),
        in_shown_order(b),
        a.to_multiset() == b.to_multiset(),
        command_ids(a).no_duplicates(),
    ensures
        a == b,
    decreases a.len(),
{
    a.to_multiset_ensures();
    b.to_multiset_ensures();
    if a.len() == 0 {
        assert(a =~= b);
    } else {
        let x = a[0];
        let y = b[0];
        assert(a.contains(x));
        assert(b.to_multiset().count(x) > 0);
        let j = choose|j: int| 0 <= j < b.len() && b[j] == x;
        assert(b.contains(y));
        assert(a.to_multiset().count(y) > 0);
        let i = choose|i: int| 0 <= i < a.len() && a[i] == y;
        text::lemma_text_lt_total(x.command.label(), y.command.label());
        text::lemma_text_lt_total(x.id, y.id);
        if i > 0 {
            assert(!shown_before(a[i], a[0]));
            assert(j > 0 ==> !shown_before(b[j], b[0]));
            assert(command_ids(a)[i] == command_ids(a)[0]);
        }
        assert(x == y);
        let a1 = a.remove(0);
        let b1 = b.remove(0);
        assert(a1.to_multiset() == b1.to_multiset());
        assert forall|p: int, q: int| 0 <= p < a1.len() && 0 <= q < a1.len() && p != q implies
            command_ids(a1)[p] != command_ids(a1)[q] by {
            assert(command_ids(a)[p + 1] != command_ids(a)[q + 1]);
        }
        assert forall|p: int, q: int| 0 <= p < q < a1.len() implies !shown_before(
            #[trigger] a1[q],
            #[trigger] a1[p],
        ) by {
            assert(!shown_before(a[q + 1], a[p + 1]));
        }
        assert forall|p: int, q: int| 0 <= p < q < b1.len() implies !shown_before(
            #[trigger] b1[q],
            #[trigger] b1[p],
        ) by {
            assert(!shown_before(b[q + 1], b[p + 1]));
        }
        lemma_shown_order_unique(a1, b1);
        assert(a =~= seq![x] + a1);
        assert(b =~= seq![y] + b1);
    }
}

/// Whether an id has the length of those that are drawn.
pub open spec fn is_drawn(id: Seq<char>) -> bool {
    id.len() == 36
}

/// Whether all of some ids have the length of those that are drawn.
pub open spec fn all_drawn(ids: Seq<Seq<char>>) -> bool {
    forall|k: int| 0 <= k < ids.len() ==> is_drawn(#[trigger] ids[k])
}

/// `uuid::Uuid::new_v4` in its display form: a fresh random id. Nothing is claimed of it
/// but the length that every id has when displayed.
#[verifier::external_body]
pub(crate) fn uuid() -> (r: String)
    ensures
        r@.len() == 36,
{
    uuid::Uuid::new_v4().to_string()
}

/// What the commands of a configuration run, one entry for each script.
pub open spec fn scripts_of(commands: Seq<ConfigCommandView>) -> Seq<CommandTypeView>
    decreases commands.len(),
{
    if commands.len() == 0 {
        Seq::empty()
    } else {
        scripts_of(commands.drop_last()) + scripts_of_one(commands.last())
    }
}

/// What one command of a configuration runs.
pub open spec fn scripts_of_one(c: ConfigCommandView) -> Seq<CommandTypeView> {
    match c {
        ConfigCommandView::Plexus { name, actual_commands } => actual_commands.map_values(
            |s: Seq<char>| CommandTypeView::Plexus { name, command: s },
        ),
        _ => seq![CommandTypeView::Simple(c.name())],
    }
}

/// The id of a command of the task `name`, made with a fresh `uuid`.
pub open spec fn command_id(name: Seq<char>, c: CommandTypeView, uuid: Seq<char>) -> Seq<char> {
    match c {
        CommandTypeView::Simple(_) => name + "-"@ + uuid,
        CommandTypeView::Plexus { name: own, .. } => name + "-"@ + own + "-"@ + uuid,
    }
}

/// A new command of the task `name`.
pub open spec fn new_command(name: Seq<char>, c: CommandTypeView, uuid: Seq<char>) -> CommandView {
    CommandView { id: command_id(name, c, uuid), command: c, status: TaskStatus::Init }
}

/// `s` with `c` in the place of the command with its id, or at the end where there is none.
pub open spec fn with_command(s: Seq<CommandView>, c: CommandView) -> Seq<CommandView> {
    let at = text::first_at(command_ids(s), c.id);
    if at < s.len() {
        s.update(at, c)
    } else {
        s.push(c)
    }
}

/// The commands of a new task `name` that runs `scripts`, whose ids are made with `uuids`.
pub open spec fn new_commands(
    name: Seq<char>,
    scripts: Seq<CommandTypeView>,
    uuids: Seq<Seq<char>>,
) -> Seq<CommandView>
    decreases scripts.len(),
{
    if scripts.len() == 0 {
        Seq::empty()
    } else {
        with_command(
            new_commands(name, scripts.drop_last(), uuids),
            new_command(name, scripts.last(), uuids[scripts.len() - 1]),
        )
    }
}

proof fn lemma_with_command(s: Seq<CommandView>, c: CommandView)
    requires
        command_ids(s).no_duplicates(),
    ensures
        command_ids(with_command(s, c)).no_duplicates(),
        forall|i: int|
            0 <= i < with_command(s, c).len() ==> (s.contains(#[trigger] with_command(s, c)[i])
                || with_command(s, c)[i] == c),
{
    let ids = command_ids(s);
    let at = text::first_at(ids, c.id);
    text::lemma_first_at(ids, c.id);
    if at < s.len() {
        assert(command_ids(with_command(s, c)) =~= ids);
        assert forall|i: int| 0 <= i < with_command(s, c).len() implies (s.contains(
            #[trigger] with_command(s, c)[i],
        ) || with_command(s, c)[i] == c) by {
            if i != at {
                assert(s[i] == with_command(s, c)[i]);
            }
        }
    } else {
        assert(command_ids(with_command(s, c)) =~= ids.push(c.id));
        assert forall|i: int| 0 <= i < with_command(s, c).len() implies (s.contains(
            #[trigger] with_command(s, c)[i],
        ) || with_command(s, c)[i] == c) by {
            if i < s.len() {
                assert(s[i] == with_command(s, c)[i]);
            }
        }
    }
}

/// No two commands of a new task have the same id, and all of them wait for their turn.
pub proof fn lemma_new_commands(
    name: Seq<char>,
    scripts: Seq<CommandTypeView>,
    uuids: Seq<Seq<char>>,
)
    ensures
        command_ids(new_commands(name, scripts, uuids)).no_duplicates(),
        forall|i: int|
            0 <= i < new_commands(name, scripts, uuids).len() ==> (#[trigger] new_commands(
                name,
                scripts,
                uuids,
            )[i]).status is Init,
    decreases scripts.len(),
{
    if scripts.len() > 0 {
        let before = new_commands(name, scripts.drop_last(), uuids);
        let c = new_command(name, scripts.last(), uuids[scripts.len() - 1]);
        lemma_new_commands(name, scripts.drop_last(), uuids);
        lemma_with_command(before, c);
        let all = new_commands(name, scripts, uuids);
        assert forall|i: int| 0 <= i < all.len() implies (#[trigger] all[i]).status is Init by {
            if before.contains(all[i]) {
                let k = choose|k: int| 0 <= k < before.len() && before[k] == all[i];
            }
        }
    }
}

/// Where the fresh ids lead to distinct command ids, a new task has one command for each
/// script, in their order.
pub proof fn lemma_new_commands_distinct(
    name: Seq<char>,
    scripts: Seq<CommandTypeView>,
    uuids: Seq<Seq<char>>,
)
    requires
        forall|i: int, j: int|
            0 <= i < j < scripts.len() ==> #[trigger] command_id(name, scripts[i], uuids[i])
                != #[trigger] command_id(name, scripts[j], uuids[j]),
    ensures
        new_commands(name, scripts, uuids) == Seq::new(
            scripts.len(),
            |i: int| new_command(name, scripts[i], uuids[i]),
        ),
    decreases scripts.len(),
{
    let direct = Seq::new(scripts.len(), |i: int| new_command(name, scripts[i], uuids[i]));
    if scripts.len() > 0 {
        let n = scripts.len() - 1;
        let less = scripts.drop_last();
        assert forall|i: int, j: int| 0 <= i < j < less.len() implies #[trigger] command_id(
            name,
            less[i],
            uuids[i],
        ) != #[trigger] command_id(name, less[j], uuids[j]) by {
            assert(command_id(name, scripts[i], uuids[i]) != command_id(
                name,
                scripts[j],
                uuids[j],
            ));
        }
        lemma_new_commands_distinct(name, less, uuids);
        let before = new_commands(name, less, uuids);
        let c = new_command(name, scripts.last(), uuids[n]);
        let k = text::first_at(command_ids(before), c.id);
        text::lemma_first_at(command_ids(before), c.id);
        if k < before.len() {
            assert(command_id(name, scripts[k], uuids[k]) == command_id(
                name,
                scripts[n],
                uuids[n],
            ));
        }
        assert(new_commands(name, scripts, uuids) =~= direct);
    } else {
        assert(new_commands(name, scripts, uuids) =~= direct);
    }
}

fn expand(commands: &Vec<ConfigCommand>) -> (r: Vec<TaskCommandType>)
    ensures
        r@.map_values(|c: TaskCommandType| c@) == scripts_of(command_views(commands@)),
{
    let mut out: Vec<TaskCommandType> = Vec::new();
    let mut i: usize = 0;
    let ghost all = command_views(commands@);
    assert(out@.map_values(|c: TaskCommandType| c@) =~= scripts_of(all.take(0)));
    while i < commands.len()
        invariant
            i <= commands@.len(),
            all == command_views(commands@),
            out@.map_values(|c: TaskCommandType| c@) == scripts_of(all.take(i as int)),
        decreases commands@.len() - i,
    {
        let ghost start = out@.map_values(|c: TaskCommandType| c@);
        proof {
            assert(all.take(i + 1).drop_last() =~= all.take(i as int));
            assert(all.take(i + 1).last() == commands@[i as int]@);
        }
        match &commands[i] {
            ConfigCommand::Plexus(p) => {
                let ghost one = scripts_of_one(commands@[i as int]@);
                let mut k: usize = 0;
                assert(start + one.take(0) =~= start);
                while k < p.actual_commands.len()
                    invariant
                        k <= p.actual_commands@.len(),
                        one.len() == p.actual_commands@.len(),
                        forall|m: int|
                            0 <= m < one.len() ==> #[trigger] one[m] == (CommandTypeView::Plexus {
                                name: p.name@,
                                command: p.actual_commands@[m]@,
                            }),
                        out@.map_values(|c: TaskCommandType| c@) == start + one.take(k as int),
                    decreases p.actual_commands@.len() - k,
                {
                    let ghost before = out@;
                    let c = TaskCommandType::Plexus(
                        TaskPlexusCommand {
                            name: p.name.clone(),
                            command: p.actual_commands[k].clone(),
                        },
                    );
                    out.push(c);
                    proof {
                        assert(out@.map_values(|c: TaskCommandType| c@) =~= before.map_values(
                            |c: TaskCommandType| c@,
                        ).push(one[k as int]));
                        assert(start + one.take(k + 1) =~= (start + one.take(k as int)).push(
                            one[k as int],
                        ));
                    }
                    k += 1;
                }
                assert(one.take(k as int) =~= one);
            },
            ConfigCommand::Simple(s) => {
                let ghost before = out@;
                out.push(TaskCommandType::Simple(s.clone()));
                assert(out@.map_values(|c: TaskCommandType| c@) =~= start + scripts_of_one(
                    commands@[i as int]@,
                ));
            },
            ConfigCommand::WithDependency { command, .. } => {
                out.push(TaskCommandType::Simple(command.clone()));
                assert(out@.map_values(|c: TaskCommandType| c@) =~= start + scripts_of_one(
                    commands@[i as int]@,
                ));
            },
        }
        i += 1;
    }
    assert(all.take(i as int) =~= all);
    out
}

fn make_id(name: &str, c: &TaskCommandType, uuid: &str) -> (r: String)
    ensures
        r@ == command_id(name@, c@, uuid@),
{
    let mut out = text::concat(name, "-");
    match c {
        TaskCommandType::Simple(_) => {},
        TaskCommandType::Plexus(p) => {
            out.push_str(p.name.as_str());
            out.push_str("-");
        },
    }
    out.push_str(uuid);
    out
}

impl Task {
    /// A new task that runs `commands`, with fresh ids for them.
    pub fn new(
        id: String,
        name: String,
        path: String,
        commands: Vec<ConfigCommand>,
        parent_id: Option<String>,
        children_id: Option<Vec<String>>,
    ) -> (r: Self)
        ensures
            exists|uuids: Seq<Seq<char>>|
                uuids.len() == scripts_of(command_views(commands@)).len() && all_drawn(uuids)
                    && r@ == (TaskView {
                    id: id@,
                    name: name@,
                    path: path@,
                    commands: #[trigger] new_commands(
                        name@,
                        scripts_of(command_views(commands@)),
                        uuids,
                    ),
                    parent_id: text::opt_text(parent_id),
                    children_id: text::opt_texts(children_id),
                }),
    {
        let n: usize = script_count(&commands);
        let mut uuids: Vec<String> = Vec::new();
        while uuids.len() < n
            invariant
                uuids@.len() <= n,
                forall|k: int| 0 <= k < uuids@.len() ==> is_drawn(#[trigger] uuids@[k]@),
            decreases n - uuids@.len(),
        {
            uuids.push(uuid());
        }
        assert forall|k: int| 0 <= k < uuids@.len() implies is_drawn(
            #[trigger] text::texts(uuids@)[k],
        ) by {
            assert(text::texts(uuids@)[k] == uuids@[k]@);
        }
        Task::with_uuids(id, name, path, &commands, parent_id, children_id, &uuids)
    }

    /// A new task that runs `commands`, whose ids are made with `uuids`.
    pub fn with_uuids(
        id: String,
        name: String,
        path: String,
        commands: &Vec<ConfigCommand>,
        parent_id: Option<String>,
        children_id: Option<Vec<String>>,
        uuids: &Vec<String>,
    ) -> (r: Self)
        requires
            uuids@.len() == scripts_of(command_views(commands@)).len(),
        ensures
            r@ == (TaskView {
                id: id@,
                name: name@,
                path: path@,
                commands: new_commands(
                    name@,
                    scripts_of(command_views(commands@)),
                    text::texts(uuids@),
                ),
                parent_id: text::opt_text(parent_id),
                children_id: text::opt_texts(children_id),
            }),
    {
        let types = expand(commands);
        let ghost all = scripts_of(command_views(commands@));
        let mut cmds: Vec<TaskCommand> = Vec::new();
        let mut i: usize = 0;
        assert(commands_view(cmds@) =~= new_commands(name@, all.take(0), text::texts(uuids@)));
        while i < types.len()
            invariant
                i <= types@.len(),
                types@.map_values(|c: TaskCommandType| c@) == all,
                uuids@.len() == all.len(),
                all.len() == types@.len(),
                commands_view(cmds@) == new_commands(
                    name@,
                    all.take(i as int),
                    text::texts(uuids@),
                ),
            decreases types@.len() - i,
        {
            let id = make_id(name.as_str(), &types[i], uuids[i].as_str());
            let c = TaskCommand {
                _id: id,
                _command: types[i].clone(),
                _status: TaskStatus::Init,
            };
            proof {
                assert(all.take(i + 1).drop_last() =~= all.take(i as int));
                assert(all[i as int] == types@[i as int]@);
                assert(all.take(i + 1).last() == all[i as int]);
                assert(text::texts(uuids@)[i as int] == uuids@[i as int]@);
                assert(c@ == new_command(name@, all[i as int], text::texts(uuids@)[i as int]));
            }
            put_command(&mut cmds, c);
            i += 1;
        }
        assert(all.take(i as int) =~= all);
        Task {
            _id: id,
            _name: name,
            _path: path,
            _commands: cmds,
            _parent_id: parent_id,
            _children_id: children_id,
        }
    }
}

/// How many scripts the commands of a configuration run.
pub fn script_count(commands: &Vec<ConfigCommand>) -> (n: usize)
    ensures
        n == scripts_of(command_views(commands@)).len(),
{
    let types = expand(commands);
    types.len()
}

fn put_command(cmds: &mut Vec<TaskCommand>, c: TaskCommand)
    ensures
        commands_view(final(cmds)@) == with_command(commands_view(old(cmds)@), c@),
{
    let ghost ids = command_ids(commands_view(cmds@));
    let mut i: usize = 0;
    while i < cmds.len()
        invariant
            i <= cmds@.len(),
            cmds@ == old(cmds)@,
            ids == command_ids(commands_view(cmds@)),
            forall|k: int| 0 <= k < i ==> ids[k] != c@.id,
        decreases cmds@.len() - i,
    {
        if *cmds[i]._id.as_str() == *c._id.as_str() {
            proof {
                assert(ids[i as int] == c@.id);
                text::lemma_is_first_at(ids, c@.id, i as int);
            }
            cmds[i] = c;
            assert(commands_view(cmds@) =~= with_command(commands_view(old(cmds)@), c@));
            return;
        }
        assert(ids[i as int] == cmds@[i as int]@.id);
        i += 1;
    }
    cmds.push(c);
    proof {
        text::lemma_is_first_at(ids, c@.id, i as int);
    }
    assert(commands_view(cmds@) =~= with_command(commands_view(old(cmds)@), c@));
}

} // verus!
