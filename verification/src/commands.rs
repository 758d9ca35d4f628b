//! Slash commands, and which prompts are commands.
use vstd::prelude::*;
use vstd::string::*;

use crate::interact::str_view;
use crate::proto::{ErrorView, RpcError, error_view, reasoned_view};
use crate::pump::PromptMode;
use crate::text::{
    chars_of, is_white, joined, joined3, same, text_between, trim, trimmed, trimmed_front, white,
};

verus! {

/// A command that the host knows.
#[derive(Debug, PartialEq)]
pub struct CommandDescriptor {
    pub name: &'static str,
    pub description: &'static str,
    /// What it may be given; `None` where it is given nothing.
    pub hint: Option<&'static str>,
}

/// Whether these are the commands that the host knows, in their order.
pub open spec fn is_builtin_list(v: Seq<CommandDescriptor>) -> bool {
    &&& v.len() == 5
    &&& v[0].name@ == "plan"@ && v[0].description@ == "进入或退出计划模式"@ && v[0].hint is None
    &&& v[1].name@ == "compact"@ && v[1].description@ == "压缩以上对话内容"@ && v[1].hint is None
    &&& v[2].name@ == "export"@ && v[2].description@ == "导出本会话日志为 ZIP 归档"@
        && v[2].hint is None
    &&& v[3].name@ == "goal"@ && v[3].description@ == "查看或设置长期任务的目标"@ && str_view(
        v[3].hint,
    ) == Some("[object|clear|edit <object>|pause|resume]"@)
    &&& v[4].name@ == "model"@ && v[4].description@ == "查看或切换当前模型"@ && str_view(v[4].hint)
        == Some("[model]"@)
}

/// The commands that the host knows.
pub fn builtin_commands() -> (r: Vec<CommandDescriptor>)
    ensures
        is_builtin_list(r@),
{
    let mut v: Vec<CommandDescriptor> = Vec::new();
    v.push(CommandDescriptor { name: "plan", description: "进入或退出计划模式", hint: None });
    v.push(CommandDescriptor { name: "compact", description: "压缩以上对话内容", hint: None });
    v.push(
        CommandDescriptor { name: "export", description: "导出本会话日志为 ZIP 归档", hint: None },
    );
    v.push(
        CommandDescriptor {
            name: "goal",
            description: "查看或设置长期任务的目标",
            hint: Some("[object|clear|edit <object>|pause|resume]"),
        },
    );
    v.push(
        CommandDescriptor { name: "model", description: "查看或切换当前模型", hint: Some("[model]") },
    );
    v
}

/// The place of the first white space; the length where there is none.
pub open spec fn white_place(s: Seq<char>) -> int
    decreases s.len(),
{
    if s.len() == 0 || is_white(s[0]) {
        0
    } else {
        1 + white_place(s.drop_first())
    }
}

proof fn lemma_white_place(s: Seq<char>, k: int)
    requires
        0 <= k <= s.len(),
        k < s.len() ==> is_white(s[k]),
        forall|i: int| 0 <= i < k ==> !is_white(#[trigger] s[i]),
    ensures
        white_place(s) == k,
    decreases k,
{
    if k > 0 {
        assert(!is_white(s[0]));
        let rest = s.drop_first();
        assert forall|i: int| 0 <= i < k - 1 implies !is_white(#[trigger] rest[i]) by {
            assert(rest[i] == s[i + 1]);
        }
        lemma_white_place(rest, k - 1);
    }
}

/// A text without the slashes that it begins with.
pub open spec fn unslashed_front(s: Seq<char>) -> Seq<char>
    decreases s.len(),
{
    if s.len() > 0 && s[0] == '/' {
        unslashed_front(s.drop_first())
    } else {
        s
    }
}

proof fn lemma_unslashed_front(s: Seq<char>, k: int)
    requires
        0 <= k <= s.len(),
        forall|i: int| 0 <= i < k ==> s[i] == '/',
        k < s.len() ==> s[k] != '/',
    ensures
        unslashed_front(s) == s.skip(k),
    decreases k,
{
    if k > 0 {
        assert(s[0] == '/');
        lemma_unslashed_front(s.drop_first(), k - 1);
        assert(s.drop_first().skip(k - 1) =~= s.skip(k));
    } else {
        assert(s.skip(0) =~= s);
    }
}

/// The first word of a line.
pub open spec fn first_word(line: Seq<char>) -> Seq<char> {
    let s = trimmed_front(line);
    s.take(white_place(s))
}

/// The command that a line names: its first word, without slashes before it.
pub open spec fn command_name(line: Seq<char>) -> Seq<char> {
    unslashed_front(first_word(line))
}

/// What a line gives a command: all behind its first word.
pub open spec fn command_args(line: Seq<char>) -> Seq<char> {
    let s = trimmed_front(line);
    trimmed(s.skip(white_place(s)))
}

/// Parts a line into the command that it names and what it gives it.
pub fn split_command(line: &str) -> (r: (String, String))
    ensures
        r.0@ == command_name(line@),
        r.1@ == command_args(line@),
{
    let v = chars_of(line);
    let mut from: usize = 0;
    while from < v.len() && white(v[from])
        invariant
            from <= v.len(),
            forall|i: int| 0 <= i < from ==> is_white(#[trigger] v@[i]),
        decreases v.len() - from,
    {
        from = from + 1;
    }
    proof {
        crate::text::lemma_trimmed_front(line@, from as int);
    }
    let ghost s = line@.skip(from as int);
    let mut end: usize = from;
    while end < v.len() && !white(v[end])
        invariant
            from <= end <= v.len(),
            v@ == line@,
            s == line@.skip(from as int),
            forall|i: int| 0 <= i < end - from ==> !is_white(#[trigger] s[i]),
        decreases v.len() - end,
    {
        assert(s[end - from] == v@[end as int]);
        end = end + 1;
    }
    proof {
        if end < v.len() {
            assert(s[end - from] == v@[end as int]);
        }
        lemma_white_place(s, end - from);
    }
    let ghost word = s.take(end - from);
    let mut start: usize = from;
    while start < end && v[start] == '/'
        invariant
            from <= start <= end <= v.len(),
            v@ == line@,
            s == line@.skip(from as int),
            word == s.take(end - from),
            forall|i: int| 0 <= i < start - from ==> word[i] == '/',
        decreases end - start,
    {
        assert(word[start - from] == v@[start as int]);
        start = start + 1;
    }
    proof {
        if start < end {
            assert(word[start - from] == v@[start as int]);
        }
        lemma_unslashed_front(word, start - from);
        assert(v@.subrange(start as int, end as int) =~= word.skip(start - from));
        assert(v@.subrange(end as int, v@.len() as int) =~= s.skip(end - from));
    }
    let name = text_between(&v, start, end);
    let rest = text_between(&v, end, v.len());
    (name, trim(rest.as_str()))
}

/// What a command asks for.
#[derive(Debug, PartialEq)]
pub enum Command {
    /// Plan mode, or out of it.
    SetMode { plan: bool },
    Export,
    ShowGoals,
    ClearGoals,
    CreateGoal(String),
    /// Another text for the goal that is being worked on.
    EditGoal(String),
    /// The goal that is being worked on is put aside, or taken up again.
    PauseGoal { paused: bool },
    ShowModel,
    SetModel(String),
    Compact,
}

/// The model of what a command asks for.
pub enum CommandView {
    SetMode { plan: bool },
    Export,
    ShowGoals,
    ClearGoals,
    CreateGoal(Seq<char>),
    EditGoal(Seq<char>),
    PauseGoal { paused: bool },
    ShowModel,
    SetModel(Seq<char>),
    Compact,
}

impl View for Command {
    type V = CommandView;

    open spec fn view(&self) -> CommandView {
        match self {
            Command::SetMode { plan } => CommandView::SetMode { plan: *plan },
            Command::Export => CommandView::Export,
            Command::ShowGoals => CommandView::ShowGoals,
            Command::ClearGoals => CommandView::ClearGoals,
            Command::CreateGoal(t) => CommandView::CreateGoal(t@),
            Command::EditGoal(t) => CommandView::EditGoal(t@),
            Command::PauseGoal { paused } => CommandView::PauseGoal { paused: *paused },
            Command::ShowModel => CommandView::ShowModel,
            Command::SetModel(m) => CommandView::SetModel(m@),
            Command::Compact => CommandView::Compact,
        }
    }
}

/// What the goal command asks for, by what it is given: `clear`, `pause` and
/// `resume` are what they say, `edit` takes a text, and anything else is a goal.
pub open spec fn goal_command_from(args: Seq<char>) -> Result<CommandView, ErrorView> {
    let verb = args.take(white_place(args));
    let rest = trimmed(args.skip(white_place(args)));
    if args.len() == 0 {
        Ok(CommandView::ShowGoals)
    } else if verb == "clear"@ {
        Ok(CommandView::ClearGoals)
    } else if args == "pause"@ {
        Ok(CommandView::PauseGoal { paused: true })
    } else if args == "resume"@ {
        Ok(CommandView::PauseGoal { paused: false })
    } else if verb == "edit"@ {
        if rest.len() == 0 {
            Err(error_view("bad-request"@, "/goal edit 需要目标内容"@))
        } else {
            Ok(CommandView::EditGoal(rest))
        }
    } else {
        Ok(CommandView::CreateGoal(args))
    }
}

/// What a line asks for.
pub open spec fn command_from(line: Seq<char>) -> Result<CommandView, ErrorView> {
    let name = command_name(line);
    let args = command_args(line);
    if name == "plan"@ {
        if args.len() == 0 || args == "on"@ {
            Ok(CommandView::SetMode { plan: true })
        } else if args == "off"@ {
            Ok(CommandView::SetMode { plan: false })
        } else {
            Err(error_view("bad-request"@, "/plan 参数必须为空/on/off(收到 "@ + args + ")"@))
        }
    } else if name == "export"@ {
        Ok(CommandView::Export)
    } else if name == "goal"@ {
        goal_command_from(args)
    } else if name == "model"@ {
        if args.len() == 0 {
            Ok(CommandView::ShowModel)
        } else {
            Ok(CommandView::SetModel(args))
        }
    } else if name == "compact"@ {
        Ok(CommandView::Compact)
    } else {
        Err(error_view("bad-request"@, "未知命令 /"@ + name))
    }
}

fn part_at_white(s: &str) -> (r: (String, String))
    ensures
        r.0@ == s@.take(white_place(s@)),
        r.1@ == trimmed(s@.skip(white_place(s@))),
{
    let v = chars_of(s);
    let mut end: usize = 0;
    while end < v.len() && !white(v[end])
        invariant
            end <= v.len(),
            v@ == s@,
            forall|i: int| 0 <= i < end ==> !is_white(#[trigger] s@[i]),
        decreases v.len() - end,
    {
        end = end + 1;
    }
    proof {
        lemma_white_place(s@, end as int);
        assert(v@.subrange(0, end as int) =~= s@.take(end as int));
        assert(v@.subrange(end as int, v@.len() as int) =~= s@.skip(end as int));
    }
    let rest = text_between(&v, end, v.len());
    (text_between(&v, 0, end), trim(rest.as_str()))
}

fn parse_goal_command(args: String) -> (r: Result<Command, RpcError>)
    ensures
        match goal_command_from(args@) {
            Ok(c) => r is Ok && r->Ok_0@ == c,
            Err(e) => r is Err && r->Err_0@ == e,
        },
{
    let a = args.as_str();
    if a.is_empty() {
        return Ok(Command::ShowGoals);
    }
    let (verb, rest) = part_at_white(a);
    if same(verb.as_str(), "clear") {
        Ok(Command::ClearGoals)
    } else if same(a, "pause") {
        Ok(Command::PauseGoal { paused: true })
    } else if same(a, "resume") {
        Ok(Command::PauseGoal { paused: false })
    } else if same(verb.as_str(), "edit") {
        if rest.as_str().is_empty() {
            Err(RpcError::bad_request("/goal edit 需要目标内容"))
        } else {
            Ok(Command::EditGoal(rest))
        }
    } else {
        Ok(Command::CreateGoal(args))
    }
}

/// Reads what a line asks for.
pub fn parse_command(line: &str) -> (r: Result<Command, RpcError>)
    ensures
        match command_from(line@) {
            Ok(c) => r is Ok && r->Ok_0@ == c,
            Err(e) => r is Err && r->Err_0@ == e,
        },
{
    let (name, args) = split_command(line);
    let n = name.as_str();
    let a = args.as_str();
    if same(n, "plan") {
        if a.is_empty() || same(a, "on") {
            Ok(Command::SetMode { plan: true })
        } else if same(a, "off") {
            Ok(Command::SetMode { plan: false })
        } else {
            Err(
                RpcError::bad_request(
                    joined3("/plan 参数必须为空/on/off(收到 ", a, ")").as_str(),
                ),
            )
        }
    } else if same(n, "export") {
        Ok(Command::Export)
    } else if same(n, "goal") {
        parse_goal_command(args)
    } else if same(n, "model") {
        if a.is_empty() {
            Ok(Command::ShowModel)
        } else {
            Ok(Command::SetModel(args))
        }
    } else if same(n, "compact") {
        Ok(Command::Compact)
    } else {
        Err(RpcError::bad_request(joined("未知命令 /", n).as_str()))
    }
}

// Prompts.

/// A name that makes a prompt a command.
pub open spec fn is_command_name(s: Seq<char>) -> bool {
    s == "plan"@ || s == "compact"@ || s == "goal"@ || s == "model"@ || s == "export"@
}

/// A prompt that is carried out as a command: it begins with a slash and names
/// one.
pub open spec fn is_command_line(text: Seq<char>) -> bool {
    let line = trimmed(text);
    line.len() > 0 && line[0] == '/' && is_command_name(command_name(line))
}

/// How a prompt is submitted.
pub open spec fn mode_from(mode: Seq<char>) -> Result<PromptMode, ErrorView> {
    if mode == "queue"@ {
        Ok(PromptMode::Queue)
    } else if mode == "steer"@ {
        Ok(PromptMode::Steer)
    } else {
        Err(error_view("bad-request"@, "mode 取值必须为 queue 或 steer(收到 "@ + mode + ")"@))
    }
}

/// Reads how a prompt is submitted.
pub fn parse_prompt_mode(mode: &str) -> (r: Result<PromptMode, RpcError>)
    ensures
        match mode_from(mode@) {
            Ok(m) => r is Ok && r->Ok_0 == m,
            Err(e) => r is Err && r->Err_0@ == e,
        },
{
    if same(mode, "queue") {
        Ok(PromptMode::Queue)
    } else if same(mode, "steer") {
        Ok(PromptMode::Steer)
    } else {
        Err(
            RpcError::bad_request(
                joined3("mode 取值必须为 queue 或 steer(收到 ", mode, ")").as_str(),
            ),
        )
    }
}

/// Checks the mode that a session is to have.
pub fn check_mode(mode: &str) -> (r: Result<(), RpcError>)
    ensures
        if mode@ == "standard"@ || mode@ == "plan"@ {
            r is Ok
        } else {
            r is Err && r->Err_0@ == error_view(
                "bad-request"@,
                "mode 取值必须为 standard 或 plan"@,
            )
        },
{
    if same(mode, "standard") || same(mode, "plan") {
        Ok(())
    } else {
        Err(RpcError::bad_request("mode 取值必须为 standard 或 plan"))
    }
}

/// What becomes of a prompt.
#[derive(Debug, PartialEq)]
pub enum PromptRoute {
    /// It is carried out as a command.
    Command(String),
    /// It goes to the model.
    Submit,
}

/// What becomes of a prompt: one that names a command is carried out, and may
/// have nothing stored with it.
pub open spec fn prompt_fault(text: Seq<char>, images: bool, files: bool) -> Option<ErrorView> {
    let name = command_name(trimmed(text));
    if !is_command_line(text) {
        None
    } else if images {
        Some(
            reasoned_view(
                "attachment-error"@,
                "/"@ + name + " 不接受图片附件,请先移除图片"@,
                "COMMAND_IMAGES_UNSUPPORTED"@,
            ),
        )
    } else if files {
        Some(
            reasoned_view(
                "attachment-error"@,
                "/"@ + name + " 不接受文件附件,请先移除文件"@,
                "COMMAND_FILES_UNSUPPORTED"@,
            ),
        )
    } else {
        None
    }
}

/// Decides what becomes of a prompt.
pub fn route_prompt(text: &str, images: bool, files: bool) -> (r: Result<PromptRoute, RpcError>)
    ensures
        match prompt_fault(text@, images, files) {
            Some(e) => r is Err && r->Err_0@ == e,
            None => if is_command_line(text@) {
                r matches Ok(PromptRoute::Command(line)) && line@ == trimmed(text@)
            } else {
                r matches Ok(PromptRoute::Submit)
            },
        },
{
    let line = trim(text);
    let front = chars_of(line.as_str());
    if front.len() == 0 || front[0] != '/' {
        return Ok(PromptRoute::Submit);
    }
    let (name, args) = split_command(line.as_str());
    let n = name.as_str();
    if !(same(n, "plan") || same(n, "compact") || same(n, "goal") || same(n, "model") || same(
        n,
        "export",
    )) {
        return Ok(PromptRoute::Submit);
    }
    if images {
        let message = joined3("/", n, " 不接受图片附件,请先移除图片");
        return Err(
            RpcError::reasoned("attachment-error", message.as_str(), "COMMAND_IMAGES_UNSUPPORTED"),
        );
    }
    if files {
        let message = joined3("/", n, " 不接受文件附件,请先移除文件");
        return Err(
            RpcError::reasoned("attachment-error", message.as_str(), "COMMAND_FILES_UNSUPPORTED"),
        );
    }
    Ok(PromptRoute::Command(line))
}

/// A prompt that is carried out as a command never comes back as one that is not
/// known: it is refused only for what the command is given.
pub proof fn law_routed_commands_are_known(text: Seq<char>)
    requires
        is_command_line(text),
    ensures
        command_from(trimmed(text)) matches Err(e) ==> (command_name(trimmed(text)) == "plan"@ || (
        command_name(trimmed(text)) == "goal"@ && goal_command_from(
            command_args(trimmed(text)),
        ) is Err)),
{
}

/// A prompt that does not begin with a slash goes to the model, whatever its
/// first word is and whatever is stored with it.
pub proof fn law_plain_text_is_submitted(text: Seq<char>, images: bool, files: bool)
    requires
        trimmed(text).len() == 0 || trimmed(text)[0] != '/',
    ensures
        !is_command_line(text),
        prompt_fault(text, images, files) is None,
{
}

/// Whether a text neither begins nor ends with white space.
pub open spec fn is_tidy(s: Seq<char>) -> bool {
    s.len() > 0 ==> !is_white(s[0]) && !is_white(s.last())
}

/// A command written as a slash, its name, a space and what it is given is read as that.
pub proof fn law_written_command_is_read(name: Seq<char>, args: Seq<char>)
    requires
        name.len() > 0 ==> name[0] != '/',
        forall|i: int| 0 <= i < name.len() ==> !is_white(#[trigger] name[i]),
        is_tidy(args),
    ensures
        command_name(seq!['/'] + name + seq![' '] + args) == name,
        command_args(seq!['/'] + name + seq![' '] + args) == args,
        command_name(seq!['/'] + name) == name,
        command_args(seq!['/'] + name).len() == 0,
{
    let n = name.len() as int;
    let line = seq!['/'] + name + seq![' '] + args;
    assert(!is_white('/') && is_white(' '));
    crate::text::lemma_trimmed_front(line, 0);
    assert(line.skip(0) =~= line);
    assert forall|i: int| 0 <= i < n + 1 implies !is_white(#[trigger] line[i]) by {
        if i > 0 {
            assert(line[i] == name[i - 1]);
        }
    }
    lemma_white_place(line, n + 1);
    let word = line.take(n + 1);
    assert(word =~= seq!['/'] + name);
    lemma_unslashed_front(word, 1);
    assert(word.skip(1) =~= name);
    let behind = line.skip(n + 1);
    assert(behind =~= seq![' '] + args + Seq::<char>::empty());
    crate::text::law_trimming_undoes_padding(seq![' '], args, Seq::empty());
    let bare = seq!['/'] + name;
    crate::text::lemma_trimmed_front(bare, 0);
    assert(bare.skip(0) =~= bare);
    assert forall|i: int| 0 <= i < n + 1 implies !is_white(#[trigger] bare[i]) by {
        if i > 0 {
            assert(bare[i] == name[i - 1]);
        }
    }
    lemma_white_place(bare, n + 1);
    assert(bare.take(n + 1) =~= bare);
    lemma_unslashed_front(bare, 1);
    assert(bare.skip(1) =~= name);
    assert(bare.skip(n + 1) =~= Seq::<char>::empty() + Seq::<char>::empty() + Seq::<char>::empty());
    crate::text::law_trimming_undoes_padding(Seq::empty(), Seq::empty(), Seq::empty());
}

/// A line with a name and what the name is given.
spec fn written(name: Seq<char>, args: Seq<char>) -> Seq<char> {
    seq!['/'] + name + seq![' '] + args
}

proof fn lemma_written(name: Seq<char>, args: Seq<char>)
    requires
        name == "plan"@ || name == "export"@ || name == "goal"@ || name == "model"@ || name
            == "compact"@,
        is_tidy(args),
    ensures
        command_name(written(name, args)) == name,
        command_args(written(name, args)) == args,
{
    reveal_strlit("plan");
    reveal_strlit("export");
    reveal_strlit("goal");
    reveal_strlit("model");
    reveal_strlit("compact");
    law_written_command_is_read(name, args);
}

proof fn lemma_names_differ()
    ensures
        "plan"@ != "export"@ && "plan"@ != "goal"@ && "plan"@ != "model"@ && "plan"@ != "compact"@,
        "export"@ != "goal"@ && "export"@ != "model"@ && "export"@ != "compact"@,
        "goal"@ != "model"@ && "goal"@ != "compact"@ && "model"@ != "compact"@,
{
    reveal_strlit("plan");
    reveal_strlit("export");
    reveal_strlit("goal");
    reveal_strlit("model");
    reveal_strlit("compact");
    assert("plan"@[0] == 'p' && "export"@[0] == 'e' && "goal"@[0] == 'g' && "model"@[0] == 'm'
        && "compact"@[0] == 'c');
}

/// What each command does with what it is given. `/plan` turns plan mode on, or off
/// where it says so, and takes nothing else. `/model` shows the model, or sets the one
/// that is named. `/export` and `/compact` do what they say whatever they are given.
pub proof fn law_commands_do_as_they_say(args: Seq<char>)
    requires
        is_tidy(args),
    ensures
        command_from(seq!['/'] + "plan"@ + seq![' '] + args) == if args.len() == 0 || args == "on"@ {
            Ok(CommandView::SetMode { plan: true })
        } else if args == "off"@ {
            Ok(CommandView::SetMode { plan: false })
        } else {
            Err::<CommandView, ErrorView>(
                error_view("bad-request"@, "/plan 参数必须为空/on/off(收到 "@ + args + ")"@),
            )
        },
        command_from(seq!['/'] + "model"@ + seq![' '] + args) == Ok::<CommandView, ErrorView>(
            if args.len() == 0 {
                CommandView::ShowModel
            } else {
                CommandView::SetModel(args)
            },
        ),
        command_from(seq!['/'] + "export"@ + seq![' '] + args) == Ok::<CommandView, ErrorView>(
            CommandView::Export,
        ),
        command_from(seq!['/'] + "compact"@ + seq![' '] + args) == Ok::<CommandView, ErrorView>(
            CommandView::Compact,
        ),
{
    lemma_names_differ();
    lemma_written("plan"@, args);
    lemma_written("model"@, args);
    lemma_written("export"@, args);
    lemma_written("compact"@, args);
    if args == "on"@ || args == "off"@ {
        reveal_strlit("on");
        reveal_strlit("off");
        assert("on"@.len() == 2 && "off"@.len() == 3);
    }
}

/// What `/goal` does with what it is given: nothing shows the goals; `pause` and
/// `resume` are what they say; `clear` gives all up, whatever follows; `edit` and a text
/// changes the goal to the text; any other text is a new goal.
pub proof fn law_goal_command_does_as_it_says(text: Seq<char>, first: Seq<char>, rest: Seq<char>)
    requires
        is_tidy(text),
        first.len() > 0,
        forall|i: int| 0 <= i < first.len() ==> !is_white(#[trigger] first[i]),
        rest.len() > 0,
        is_tidy(rest),
    ensures
        command_from(seq!['/'] + "goal"@ + seq![' '] + text) == goal_command_from(text),
        goal_command_from(Seq::empty()) == Ok::<CommandView, ErrorView>(CommandView::ShowGoals),
        goal_command_from("pause"@) == Ok::<CommandView, ErrorView>(
            CommandView::PauseGoal { paused: true },
        ),
        goal_command_from("resume"@) == Ok::<CommandView, ErrorView>(
            CommandView::PauseGoal { paused: false },
        ),
        goal_command_from("clear"@) == Ok::<CommandView, ErrorView>(CommandView::ClearGoals),
        goal_command_from("edit"@) is Err,
        goal_command_from(first + seq![' '] + rest) == Ok::<CommandView, ErrorView>(
            if first == "clear"@ {
                CommandView::ClearGoals
            } else if first == "edit"@ {
                CommandView::EditGoal(rest)
            } else {
                CommandView::CreateGoal(first + seq![' '] + rest)
            },
        ),
        first != "clear"@ && first != "edit"@ && first != "pause"@ && first != "resume"@
            ==> goal_command_from(first) == Ok::<CommandView, ErrorView>(
            CommandView::CreateGoal(first),
        ),
{
    lemma_names_differ();
    lemma_written("goal"@, text);
    reveal_strlit("pause");
    reveal_strlit("resume");
    reveal_strlit("clear");
    reveal_strlit("edit");
    assert("pause"@.len() == 5 && "resume"@.len() == 6 && "clear"@.len() == 5 && "edit"@.len() == 4);
    assert("pause"@[0] == 'p' && "clear"@[0] == 'c');
    lemma_white_place("pause"@, 5);
    lemma_white_place("resume"@, 6);
    lemma_white_place("clear"@, 5);
    lemma_white_place("edit"@, 4);
    assert("pause"@.take(5) =~= "pause"@);
    assert("resume"@.take(6) =~= "resume"@);
    assert("clear"@.take(5) =~= "clear"@);
    assert("edit"@.take(4) =~= "edit"@);
    assert("edit"@.skip(4) =~= Seq::<char>::empty());
    let n = first.len() as int;
    let both = first + seq![' '] + rest;
    assert(is_white(' '));
    assert forall|i: int| 0 <= i < n implies !is_white(#[trigger] both[i]) by {
        assert(both[i] == first[i]);
    }
    assert(both[n] == ' ');
    lemma_white_place(both, n);
    assert(both.take(n) =~= first);
    assert(both.skip(n) =~= seq![' '] + rest + Seq::<char>::empty());
    crate::text::law_trimming_undoes_padding(seq![' '], rest, Seq::empty());
    if both == "pause"@ || both == "resume"@ {
        assert(is_white(both[n]));
    }
    lemma_white_place(first, n);
    assert(first.take(n) =~= first);
}

/// Which prompts are commands: those whose text begins with a slash, behind white
/// space, and goes on with a name that the host knows. Such a prompt is refused where
/// anything is stored with it; others never are.
pub proof fn law_slash_prompts_are_commands(name: Seq<char>, args: Seq<char>, images: bool, files: bool)
    requires
        name == "plan"@ || name == "export"@ || name == "goal"@ || name == "model"@ || name
            == "compact"@,
        args.len() > 0,
        is_tidy(args),
    ensures
        is_command_line(seq!['/'] + name + seq![' '] + args),
        prompt_fault(seq!['/'] + name + seq![' '] + args, images, files) is Some <==> images
            || files,
        prompt_fault(seq!['/'] + name + seq![' '] + args, images, files) matches Some(e) ==> e.code
            == "attachment-error"@,
{
    lemma_written(name, args);
    let line = written(name, args);
    assert(!is_white('/'));
    assert(line[0] == '/');
    assert(line.last() == args.last());
    crate::text::law_trimming_undoes_padding(Seq::empty(), line, Seq::empty());
    assert(Seq::<char>::empty() + line + Seq::<char>::empty() =~= line);
}

/// How a prompt is submitted is said by one of two words; any other word is refused and
/// named.
pub proof fn law_prompt_modes(mode: Seq<char>)
    ensures
        mode_from(mode) matches Ok(PromptMode::Queue) <==> mode == "queue"@,
        mode_from(mode) matches Ok(PromptMode::Steer) <==> mode == "steer"@,
        mode_from(mode) matches Err(e) ==> e.code == "bad-request"@,
{
    reveal_strlit("queue");
    reveal_strlit("steer");
    assert("queue"@[0] == 'q' && "steer"@[0] == 's');
}

} // verus!
