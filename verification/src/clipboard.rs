//! Clipboard policy: which programs are run to put a text on the clipboard,
//! and which escape sequence is written for it.
//!
//! Nothing is run here. The functions say what is to be run, and take the exit
//! codes of what was.
use crate::ansi;
use crate::ansi::{
    osc52_clipboard_sequence_for_multiplexer, osc52_clipboard_sequence_with_kitty,
    MultiplexerPassthrough,
};
use crate::chars;
use crate::chars::same;
use crate::env;
use crate::env::Env;
use vstd::prelude::*;

verus! {

/// How a copied text gets to the clipboard, as far as the user can be told.
#[derive(Clone, Copy, Debug, PartialEq, Eq, Structural)]
pub enum SelectionClipboardPath {
    /// By a program of the platform.
    Native,
    /// By a tmux buffer.
    TmuxBuffer,
    /// By an escape sequence.
    Osc52,
}

impl Default for SelectionClipboardPath {
    fn default() -> (r: SelectionClipboardPath)
        ensures
            r == SelectionClipboardPath::Osc52,
    {
        SelectionClipboardPath::Osc52
    }
}

/// What is known of the clipboard programs of a Linux machine.
#[derive(Clone, Copy, Debug, PartialEq, Eq, Structural)]
pub enum LinuxCopy {
    /// Nothing was tried yet.
    Unprobed,
    /// None of them works.
    Unavailable,
    /// `wl-copy` works.
    WlCopy,
    /// `xclip` works.
    Xclip,
    /// `xsel` works.
    Xsel,
}

/// What the clipboard policy reads of the machine.
#[derive(Debug, PartialEq, Eq)]
pub struct Environment {
    /// The name of the operating system.
    pub platform: String,
    /// Whether the session is a remote one.
    pub ssh: bool,
    /// Whether tmux is running.
    pub tmux: bool,
    /// Whether the terminal is iTerm2.
    pub iterm: bool,
}

/// The path that the notification of a copy tells of: on macOS the native
/// one, unless the session is remote; else a tmux buffer where tmux runs.
pub open spec fn clipboard_path(environment: Environment) -> SelectionClipboardPath {
    if environment.platform@ == "macos"@ && !environment.ssh {
        SelectionClipboardPath::Native
    } else if environment.tmux {
        SelectionClipboardPath::TmuxBuffer
    } else {
        SelectionClipboardPath::Osc52
    }
}

impl Environment {
    /// Reads the environment variables of a process on a platform.
    pub fn current(env: &Env, platform: &str) -> (r: Environment)
        ensures
            r.platform@ == platform@,
            r.ssh == env::is_set_nonempty(env@, "SSH_CONNECTION"@),
            r.tmux == env::is_set_nonempty(env@, "TMUX"@),
            r.iterm == (env::var(env@, "LC_TERMINAL"@) == Some("iTerm2"@)),
    {
        Environment {
            platform: platform.to_owned(),
            ssh: env.contains_nonempty("SSH_CONNECTION"),
            tmux: env.contains_nonempty("TMUX"),
            iterm: env.is("LC_TERMINAL", "iTerm2"),
        }
    }

    /// The path that the notification of a copy tells of.
    pub fn get_clipboard_path(&self) -> (r: SelectionClipboardPath)
        ensures
            r == clipboard_path(*self),
    {
        if same(self.platform.as_str(), "macos") && !self.ssh {
            SelectionClipboardPath::Native
        } else if self.tmux {
            SelectionClipboardPath::TmuxBuffer
        } else {
            SelectionClipboardPath::Osc52
        }
    }
}

/// How long a program may take, in milliseconds.
pub const TIMEOUT_MILLIS: u64 = 2000;

/// A program to be run on an input.
#[derive(Debug, PartialEq, Eq)]
pub struct Command {
    pub program: String,
    pub args: Vec<String>,
    pub input: String,
    pub timeout_millis: u64,
}

/// What a command stands for.
#[verifier::ext_equal]
pub struct CommandView {
    pub program: Seq<char>,
    pub args: Seq<Seq<char>>,
    pub input: Seq<char>,
    pub timeout_millis: u64,
}

impl View for Command {
    type V = CommandView;

    open spec fn view(&self) -> CommandView {
        CommandView {
            program: self.program@,
            args: chars::views(self.args@),
            input: self.input@,
            timeout_millis: self.timeout_millis,
        }
    }
}

/// The command that runs `program` with `args` on `input`.
pub open spec fn command(program: Seq<char>, args: Seq<Seq<char>>, input: Seq<char>) -> CommandView {
    CommandView { program, args, input, timeout_millis: TIMEOUT_MILLIS }
}

/// The command of a Linux clipboard program that works.
pub open spec fn linux_command(tool: LinuxCopy, text: Seq<char>) -> Option<CommandView> {
    match tool {
        LinuxCopy::Unprobed => None,
        LinuxCopy::Unavailable => None,
        LinuxCopy::WlCopy => Some(command("wl-copy"@, Seq::empty(), text)),
        LinuxCopy::Xclip => Some(command("xclip"@, seq!["-selection"@, "clipboard"@], text)),
        LinuxCopy::Xsel => Some(command("xsel"@, seq!["--clipboard"@, "--input"@], text)),
    }
}

/// The command that puts a text on the clipboard of a platform, given what is
/// known of its programs.
pub open spec fn native_command(
    platform: Seq<char>,
    cached: LinuxCopy,
    text: Seq<char>,
) -> Option<CommandView> {
    if platform == "macos"@ {
        Some(command("pbcopy"@, Seq::empty(), text))
    } else if platform == "windows"@ {
        Some(command("clip"@, Seq::empty(), text))
    } else if platform == "linux"@ {
        linux_command(cached, text)
    } else {
        None
    }
}

/// The view of an optional command.
pub open spec fn opt_command(command: Option<Command>) -> Option<CommandView> {
    match command {
        Some(command) => Some(command@),
        None => None,
    }
}

/// A command without arguments.
fn bare_command(program: &str, text: &str) -> (r: Command)
    ensures
        r@ == command(program@, Seq::empty(), text@),
{
    let r = Command {
        program: program.to_owned(),
        args: Vec::new(),
        input: text.to_owned(),
        timeout_millis: TIMEOUT_MILLIS,
    };
    assert(r@ =~= command(program@, Seq::empty(), text@));
    r
}

/// A command with two arguments.
fn command_with_two(program: &str, first: &str, second: &str, text: &str) -> (r: Command)
    ensures
        r@ == command(program@, seq![first@, second@], text@),
{
    let mut args: Vec<String> = Vec::new();
    args.push(first.to_owned());
    args.push(second.to_owned());
    let r = Command {
        program: program.to_owned(),
        args,
        input: text.to_owned(),
        timeout_millis: TIMEOUT_MILLIS,
    };
    assert(r@.args =~= seq![first@, second@]);
    r
}

/// The command of a Linux clipboard program that works.
fn linux_tool_command(tool: LinuxCopy, text: &str) -> (r: Option<Command>)
    ensures
        opt_command(r) == linux_command(tool, text@),
{
    match tool {
        LinuxCopy::Unprobed | LinuxCopy::Unavailable => None,
        LinuxCopy::WlCopy => Some(bare_command("wl-copy", text)),
        LinuxCopy::Xclip => Some(command_with_two("xclip", "-selection", "clipboard", text)),
        LinuxCopy::Xsel => Some(command_with_two("xsel", "--clipboard", "--input", text)),
    }
}

/// What is done for the clipboard of the platform.
#[derive(Debug, PartialEq, Eq)]
pub enum NativeCopy {
    /// Nothing.
    Skip,
    /// A command is run, and its exit code does not matter.
    Run(Command),
    /// The Linux programs are tried, beginning with this command.
    Probe(Command),
}

/// What is done for the clipboard of a platform, over views: the command that
/// is run, if any, and whether it is the first of a probe. The programs of a
/// Linux machine are tried only while nothing is known of them.
pub open spec fn native_copy(
    platform: Seq<char>,
    cached: LinuxCopy,
    text: Seq<char>,
) -> (Option<CommandView>, bool) {
    if platform == "linux"@ && cached == LinuxCopy::Unprobed {
        (linux_command(LinuxCopy::WlCopy, text), true)
    } else {
        (native_command(platform, cached, text), false)
    }
}

/// The view of what is done for the clipboard of a platform.
pub open spec fn native_view(native: NativeCopy) -> (Option<CommandView>, bool) {
    match native {
        NativeCopy::Skip => (None, false),
        NativeCopy::Run(command) => (Some(command@), false),
        NativeCopy::Probe(command) => (Some(command@), true),
    }
}

/// Decides what is done for the clipboard of a platform. A failure that is
/// known of does not lead to a new probe.
pub fn copy_native(text: &str, platform: &str, cached: LinuxCopy) -> (r: NativeCopy)
    ensures
        native_view(r) == native_copy(platform@, cached, text@),
{
    proof {
        reveal_strlit("macos");
        reveal_strlit("windows");
        reveal_strlit("linux");
        assert("macos"@[0] != "linux"@[0]);
        assert("windows"@[0] != "linux"@[0]);
    }
    if same(platform, "macos") {
        return NativeCopy::Run(bare_command("pbcopy", text));
    }
    if same(platform, "windows") {
        return NativeCopy::Run(bare_command("clip", text));
    }
    if same(platform, "linux") {
        return match linux_tool_command(cached, text) {
            Some(command) => NativeCopy::Run(command),
            None => {
                if cached == LinuxCopy::Unprobed {
                    NativeCopy::Probe(bare_command("wl-copy", text))
                } else {
                    NativeCopy::Skip
                }
            },
        };
    }
    NativeCopy::Skip
}

/// The outcome of one step of a probe: another program is tried, or it is
/// known what works.
#[derive(Debug, PartialEq, Eq)]
pub enum ProbeStep {
    Try(LinuxCopy, Command),
    Settled(LinuxCopy),
}

/// The program that is tried after `tool`.
pub open spec fn next_tool(tool: LinuxCopy) -> LinuxCopy {
    match tool {
        LinuxCopy::WlCopy => LinuxCopy::Xclip,
        LinuxCopy::Xclip => LinuxCopy::Xsel,
        _ => LinuxCopy::Unavailable,
    }
}

/// Goes on with a probe after `tool` ended with an exit code. An exit code of
/// zero settles it, and so does the failure of the last program.
pub fn probe_next(tool: LinuxCopy, exit_code: i32, text: &str) -> (r: ProbeStep)
    ensures
        match r {
            ProbeStep::Settled(winner) => winner == if exit_code == 0 {
                tool
            } else {
                LinuxCopy::Unavailable
            },
            ProbeStep::Try(next, command) => next == next_tool(tool) && Some(command@)
                == linux_command(next_tool(tool), text@),
        },
        r is Settled <==> exit_code == 0 || next_tool(tool) == LinuxCopy::Unavailable,
{
    if exit_code == 0 {
        return ProbeStep::Settled(tool);
    }
    let next = match tool {
        LinuxCopy::WlCopy => LinuxCopy::Xclip,
        LinuxCopy::Xclip => LinuxCopy::Xsel,
        _ => LinuxCopy::Unavailable,
    };
    match linux_tool_command(next, text) {
        Some(command) => ProbeStep::Try(next, command),
        None => ProbeStep::Settled(LinuxCopy::Unavailable),
    }
}

/// The command that loads a text into a tmux buffer. Outside iTerm2 tmux is
/// asked to hand the text on to the terminal as well.
pub open spec fn tmux_command(environment: Environment, text: Seq<char>) -> Option<CommandView> {
    if !environment.tmux {
        None
    } else if environment.iterm {
        Some(command("tmux"@, seq!["load-buffer"@, "-"@], text))
    } else {
        Some(command("tmux"@, seq!["load-buffer"@, "-w"@, "-"@], text))
    }
}

/// The command that loads a text into a tmux buffer, where tmux runs.
pub fn tmux_load_buffer(text: &str, environment: &Environment) -> (r: Option<Command>)
    ensures
        opt_command(r) == tmux_command(*environment, text@),
{
    if !environment.tmux {
        return None;
    }
    let mut args: Vec<String> = Vec::new();
    args.push("load-buffer".to_owned());
    if !environment.iterm {
        args.push("-w".to_owned());
    }
    args.push("-".to_owned());
    let r = Command {
        program: "tmux".to_owned(),
        args,
        input: text.to_owned(),
        timeout_millis: TIMEOUT_MILLIS,
    };
    assert(r@.args =~= if environment.iterm {
        seq!["load-buffer"@, "-"@]
    } else {
        seq!["load-buffer"@, "-w"@, "-"@]
    });
    Some(r)
}

/// All that is done to put a text on the clipboard: what is run for the
/// platform, what is run for tmux, and the two sequences of which one is
/// written in the end.
#[derive(Debug, PartialEq, Eq)]
pub struct ClipboardPlan {
    pub native: NativeCopy,
    pub tmux: Option<Command>,
    pub raw: String,
    pub passthrough: String,
}

/// Decides what is done to put a text on the clipboard. In a remote session
/// nothing is run for the platform.
pub fn set_clipboard_with_environment(
    text: &str,
    environment: &Environment,
    cached: LinuxCopy,
    is_kitty: bool,
) -> (r: ClipboardPlan)
    ensures
        native_view(r.native) == if environment.ssh {
            (None, false)
        } else {
            native_copy(environment.platform@, cached, text@)
        },
        opt_command(r.tmux) == tmux_command(*environment, text@),
        r.raw@ == ansi::clipboard_sequence(text@, is_kitty),
        r.passthrough@ == ansi::wrapped_for(
            ansi::clipboard_sequence(text@, false),
            MultiplexerPassthrough::Tmux,
        ),
{
    let raw = osc52_clipboard_sequence_with_kitty(text, is_kitty);
    let native = if environment.ssh {
        NativeCopy::Skip
    } else {
        copy_native(text, environment.platform.as_str(), cached)
    };
    let tmux = tmux_load_buffer(text, environment);
    let passthrough = osc52_clipboard_sequence_for_multiplexer(text, MultiplexerPassthrough::Tmux);
    ClipboardPlan { native, tmux, raw, passthrough }
}

impl ClipboardPlan {
    /// The sequence that is written in the end, given the exit code of tmux
    /// where it was run: through tmux if it took the text, else the raw one.
    pub fn sequence(self, tmux_exit: Option<i32>) -> (r: String)
        ensures
            r@ == if tmux_exit == Some(0i32) {
                self.passthrough@
            } else {
                self.raw@
            },
    {
        match tmux_exit {
            Some(code) => {
                if code == 0 {
                    self.passthrough
                } else {
                    self.raw
                }
            },
            None => self.raw,
        }
    }
}

/// The winner of a probe, given the exit codes of the three programs in the
/// order in which they are tried.
pub open spec fn probe_winner(wl_copy: i32, xclip: i32, xsel: i32) -> LinuxCopy {
    if wl_copy == 0 {
        LinuxCopy::WlCopy
    } else if xclip == 0 {
        LinuxCopy::Xclip
    } else if xsel == 0 {
        LinuxCopy::Xsel
    } else {
        LinuxCopy::Unavailable
    }
}

/// What a probe comes to from `tool` on, given the exit code of each program:
/// the step of [`probe_next`] taken until it settles.
pub open spec fn probe_from(tool: LinuxCopy, exits: spec_fn(LinuxCopy) -> i32) -> LinuxCopy
    decreases
            (match tool {
                LinuxCopy::WlCopy => 3int,
                LinuxCopy::Xclip => 2,
                LinuxCopy::Xsel => 1,
                _ => 0,
            }),
{
    if exits(tool) == 0 {
        tool
    } else if next_tool(tool) == LinuxCopy::Unavailable {
        LinuxCopy::Unavailable
    } else {
        probe_from(next_tool(tool), exits)
    }
}

/// A probe finds the first program that works: `wl-copy`, then `xclip`, then
/// `xsel`. Where none does, that is known afterwards.
pub proof fn probe_finds_the_first_that_works(exits: spec_fn(LinuxCopy) -> i32)
    ensures
        probe_from(LinuxCopy::WlCopy, exits) == probe_winner(
            exits(LinuxCopy::WlCopy),
            exits(LinuxCopy::Xclip),
            exits(LinuxCopy::Xsel),
        ),
        probe_from(LinuxCopy::WlCopy, exits) != LinuxCopy::Unprobed,
{
    reveal_with_fuel(probe_from, 3);
}

/// Once a probe is settled no other one begins: what it found is run, and
/// where it found nothing, nothing is.
pub proof fn settled_probe_is_final(cached: LinuxCopy, text: Seq<char>)
    requires
        cached != LinuxCopy::Unprobed,
    ensures
        !native_copy("linux"@, cached, text).1,
        native_copy("linux"@, cached, text).0 is None <==> cached == LinuxCopy::Unavailable,
{
    reveal_strlit("macos");
    reveal_strlit("windows");
    reveal_strlit("linux");
    assert("macos"@[0] != "linux"@[0]);
    assert("windows"@[0] != "linux"@[0]);
}

/// While nothing is settled every copy begins a probe of its own.
pub proof fn unsettled_copies_probe(text: Seq<char>)
    ensures
        native_copy("linux"@, LinuxCopy::Unprobed, text) == (
            Some(command("wl-copy"@, Seq::empty(), text)),
            true,
        ),
{
}

/// A command takes the text as its input, and two seconds at most.
pub proof fn commands_take_the_text(
    platform: Seq<char>,
    cached: LinuxCopy,
    environment: Environment,
    text: Seq<char>,
)
    ensures
        native_copy(platform, cached, text).0 matches Some(c) ==> c.input == text
            && c.timeout_millis == 2000,
        linux_command(cached, text) matches Some(c) ==> c.input == text && c.timeout_millis == 2000,
        tmux_command(environment, text) matches Some(c) ==> c.input == text && c.timeout_millis
            == 2000,
{
}

/// Each platform has its own program: `pbcopy` on macOS, `clip` on Windows,
/// and nothing where no program is known. They are run without a probe.
pub proof fn platforms_have_their_programs(platform: Seq<char>, cached: LinuxCopy, text: Seq<char>)
    ensures
        platform == "macos"@ ==> native_copy(platform, cached, text).0 is Some && native_copy(
            platform,
            cached,
            text,
        ).0->0.program == "pbcopy"@ && native_copy(platform, cached, text).0->0.args.len() == 0,
        platform == "windows"@ ==> native_copy(platform, cached, text).0 is Some && native_copy(
            platform,
            cached,
            text,
        ).0->0.program == "clip"@ && native_copy(platform, cached, text).0->0.args.len() == 0,
        platform != "linux"@ ==> !native_copy(platform, cached, text).1,
        platform != "macos"@ && platform != "windows"@ && platform != "linux"@ ==> native_copy(
            platform,
            cached,
            text,
        ).0 is None,
{
    reveal_strlit("macos");
    reveal_strlit("windows");
    reveal_strlit("linux");
    assert("macos"@[0] != "linux"@[0]);
    assert("windows"@[0] != "linux"@[0]);
    assert("windows"@[0] != "macos"@[0]);
}

/// The program that was found on a Linux machine is run with the arguments that
/// make it write to the clipboard.
pub proof fn linux_programs_write_to_the_clipboard(text: Seq<char>)
    ensures
        native_copy("linux"@, LinuxCopy::WlCopy, text) == (
            Some(command("wl-copy"@, Seq::<Seq<char>>::empty(), text)),
            false,
        ),
        native_copy("linux"@, LinuxCopy::Xclip, text) == (
            Some(command("xclip"@, seq!["-selection"@, "clipboard"@], text)),
            false,
        ),
        native_copy("linux"@, LinuxCopy::Xsel, text) == (
            Some(command("xsel"@, seq!["--clipboard"@, "--input"@], text)),
            false,
        ),
        native_copy("linux"@, LinuxCopy::Unavailable, text) == (None::<CommandView>, false),
{
    reveal_strlit("macos");
    reveal_strlit("windows");
    reveal_strlit("linux");
    assert("macos"@[0] != "linux"@[0]);
    assert("windows"@[0] != "linux"@[0]);
}

/// Tmux is run where it runs already. It reads the text from its input, and is
/// asked to hand it on to every terminal but iTerm2.
pub proof fn tmux_hands_the_text_on(environment: Environment, text: Seq<char>)
    ensures
        tmux_command(environment, text) is Some <==> environment.tmux,
        tmux_command(environment, text) matches Some(c) ==> c.program == "tmux"@ && c.args[0]
            == "load-buffer"@ && c.args.last() == "-"@ && (c.args.contains("-w"@)
            <==> !environment.iterm),
{
    reveal_strlit("load-buffer");
    reveal_strlit("-w");
    reveal_strlit("-");
    let short = seq!["load-buffer"@, "-"@];
    let long = seq!["load-buffer"@, "-w"@, "-"@];
    assert("-w"@.len() == 2 && "-"@.len() == 1 && "load-buffer"@.len() == 11);
    assert(long[1] == "-w"@);
    assert(!short.contains("-w"@)) by {
        assert forall|i: int| 0 <= i < short.len() implies #[trigger] short[i] != "-w"@ by {
            assert(short[i].len() != 2);
        }
    }
}

/// A remote session never tells of the native path. On a local macOS it is the
/// path, in tmux or not; elsewhere a tmux buffer is where tmux runs, and an
/// escape sequence where it does not.
pub proof fn paths_follow_the_session(environment: Environment)
    ensures
        clipboard_path(environment) == SelectionClipboardPath::Native <==> environment.platform@
            == "macos"@ && !environment.ssh,
        clipboard_path(environment) == SelectionClipboardPath::TmuxBuffer <==> environment.tmux && (
        environment.ssh || environment.platform@ != "macos"@),
        clipboard_path(environment) == SelectionClipboardPath::Osc52 <==> !environment.tmux && (
        environment.ssh || environment.platform@ != "macos"@),
{
}

} // verus!
