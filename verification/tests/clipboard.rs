//! Clipboard policy.
use iocraft::clipboard::{
    copy_native, probe_next, set_clipboard_with_environment, tmux_load_buffer, Command,
    Environment, LinuxCopy, NativeCopy, ProbeStep, SelectionClipboardPath, TIMEOUT_MILLIS,
};
use iocraft::env::Env;
use std::collections::VecDeque;

/// Runs what is planned: programs end with the replies, in order, or with 0.
#[derive(Default)]
struct Service {
    calls: Vec<Command>,
    replies: VecDeque<i32>,
    probes: Vec<(String, i32)>,
    cache: Option<LinuxCopy>,
}

impl Service {
    fn linux_copy(&self) -> LinuxCopy {
        self.cache.unwrap_or(LinuxCopy::Unprobed)
    }

    fn execute(&mut self, command: Command) -> i32 {
        self.calls.push(command);
        self.replies.pop_front().unwrap_or(0)
    }

    fn set_clipboard(&mut self, text: &str, environment: &Environment) -> String {
        let plan = set_clipboard_with_environment(text, environment, self.linux_copy(), true);
        let mut plan = plan;
        match std::mem::replace(&mut plan.native, NativeCopy::Skip) {
            NativeCopy::Skip => {}
            NativeCopy::Run(command) => {
                self.execute(command);
            }
            NativeCopy::Probe(command) => {
                let code = self.execute(command);
                self.probes.push((text.to_string(), code));
            }
        }
        let tmux_exit = plan.tmux.take().map(|command| self.execute(command));
        plan.sequence(tmux_exit)
    }

    fn drain(&mut self) {
        for (text, code) in std::mem::take(&mut self.probes) {
            let mut step = probe_next(LinuxCopy::WlCopy, code, &text);
            loop {
                match step {
                    ProbeStep::Try(tool, command) => {
                        let code = self.execute(command);
                        step = probe_next(tool, code, &text);
                    }
                    ProbeStep::Settled(winner) => {
                        self.cache = Some(winner);
                        break;
                    }
                }
            }
        }
    }

    fn programs(&self) -> Vec<String> {
        self.calls.iter().map(|c| c.program.clone()).collect()
    }
}

fn env(platform: &str, ssh: bool, tmux: bool, iterm: bool) -> Environment {
    Environment {
        platform: platform.to_string(),
        ssh,
        tmux,
        iterm,
    }
}

#[test]
fn clipboard_native_starts_before_tmux_and_does_not_wait_for_native_completion() {
    let mut service = Service::default();
    let prepared = service.set_clipboard("中文\n🌈", &env("macos", false, true, false));
    assert_eq!(service.programs(), ["pbcopy", "tmux"]);
    assert_eq!(service.calls[1].args, ["load-buffer", "-w", "-"]);
    assert!(service
        .calls
        .iter()
        .all(|c| c.input == "中文\n🌈" && c.timeout_millis == 2000));
    assert_eq!(
        prepared,
        "\x1bPtmux;\x1b\x1b]52;c;5Lit5paHCvCfjIg=\x07\x1b\\"
    );
}

#[test]
fn clipboard_iterm_failure_returns_raw_kitty_sequence_and_ssh_skips_native() {
    let mut service = Service::default();
    service.replies.push_back(1);
    assert_eq!(
        service.set_clipboard("A", &env("macos", true, true, true)),
        "\x1b]52;c;QQ==\x1b\\"
    );
    assert_eq!(service.programs(), ["tmux"]);
    assert_eq!(service.calls[0].args, ["load-buffer", "-"]);
    assert_eq!(
        service.set_clipboard("", &env("macos", true, false, false)),
        "\x1b]52;c;\x1b\\"
    );
    assert_eq!(service.programs(), ["tmux"]);
    assert_eq!(
        env("macos", false, true, false).get_clipboard_path(),
        SelectionClipboardPath::Native
    );
    assert_eq!(
        env("linux", false, false, false).get_clipboard_path(),
        SelectionClipboardPath::Osc52
    );
    assert_eq!(
        env("macos", true, true, false).get_clipboard_path(),
        SelectionClipboardPath::TmuxBuffer
    );
}

#[test]
fn clipboard_linux_probe_order_cached_success_failure_and_concurrent_first_calls() {
    for (replies, expected, winner) in [
        (vec![0], vec!["wl-copy"], LinuxCopy::WlCopy),
        (vec![1, 0], vec!["wl-copy", "xclip"], LinuxCopy::Xclip),
        (
            vec![1, 1, 0],
            vec!["wl-copy", "xclip", "xsel"],
            LinuxCopy::Xsel,
        ),
        (
            vec![1, 1, 1],
            vec!["wl-copy", "xclip", "xsel"],
            LinuxCopy::Unavailable,
        ),
    ] {
        let mut service = Service::default();
        service.replies.extend(replies);
        service.set_clipboard("one", &env("linux", false, false, false));
        service.drain();
        assert_eq!(service.programs(), expected);
        assert_eq!(service.linux_copy(), winner);
        let count = service.calls.len();
        service.replies.push_back(1);
        service.set_clipboard("two", &env("linux", false, false, false));
        service.drain();
        assert_eq!(
            service.calls.len(),
            count + usize::from(winner != LinuxCopy::Unavailable)
        );
        assert_eq!(service.linux_copy(), winner);
    }
    let mut service = Service::default();
    service.set_clipboard("one", &env("linux", false, false, false));
    service.set_clipboard("two", &env("linux", false, false, false));
    assert_eq!(service.programs(), ["wl-copy", "wl-copy"]);
    assert_eq!(service.linux_copy(), LinuxCopy::Unprobed);
    service.drain();
    assert_eq!(service.linux_copy(), LinuxCopy::WlCopy);
}

#[test]
fn clipboard_windows_uses_clip_without_shell_or_arguments() {
    let mut service = Service::default();
    service.set_clipboard("text", &env("windows", false, false, false));
    assert_eq!(service.programs(), ["clip"]);
    assert!(service.calls[0].args.is_empty());
}

#[test]
fn tools_have_their_arguments() {
    let args = |tool| match copy_native("t", "linux", tool) {
        NativeCopy::Run(command) => command.args,
        other => panic!("{other:?}"),
    };
    assert!(args(LinuxCopy::WlCopy).is_empty());
    assert_eq!(args(LinuxCopy::Xclip), ["-selection", "clipboard"]);
    assert_eq!(args(LinuxCopy::Xsel), ["--clipboard", "--input"]);
    assert_eq!(copy_native("t", "linux", LinuxCopy::Unavailable), NativeCopy::Skip);
    assert_eq!(copy_native("t", "freebsd", LinuxCopy::WlCopy), NativeCopy::Skip);
    assert_eq!(TIMEOUT_MILLIS, 2000);
}

#[test]
fn the_environment_is_read_from_variables() {
    let mut vars = Env::new();
    vars.set("SSH_CONNECTION", "");
    vars.set_non_unicode("TMUX");
    vars.set("LC_TERMINAL", "iTerm2");
    assert_eq!(Environment::current(&vars, "linux"), env("linux", false, true, true));
    vars.set("SSH_CONNECTION", "1.2.3.4");
    vars.set("TMUX", "");
    vars.set("LC_TERMINAL", "iterm2");
    assert_eq!(Environment::current(&vars, "macos"), env("macos", true, false, false));
    assert_eq!(tmux_load_buffer("t", &env("linux", false, false, false)), None);
}
