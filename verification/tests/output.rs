//! Output above a live display.
use futures::channel::oneshot;
use iocraft::ansi::{osc52_clipboard_sequence, MultiplexerPassthrough};
use iocraft::clipboard::SelectionClipboardPath;
use iocraft::output::{
    advance_printable_width, advance_terminal_column, copy_selection, copy_selection_no_clear,
    normalize_terminal_newlines, Action, Message, UseOutputState,
};
use std::borrow::Cow;

#[test]
fn test_normalize_terminal_newlines_preserves_carriage_return_alignment() {
    assert!(matches!(
        normalize_terminal_newlines("plain"),
        Cow::Borrowed("plain")
    ));
    assert_eq!(normalize_terminal_newlines("a\nb").as_ref(), "a\r\nb");
    assert_eq!(normalize_terminal_newlines("a\r\nb").as_ref(), "a\r\nb");
    assert_eq!(normalize_terminal_newlines("\nDone!").as_ref(), "\r\nDone!");
}

#[test]
fn test_advance_terminal_column_tracks_print_continuation_without_dsr() {
    assert_eq!(advance_terminal_column(0, "Working...", None), 10);
    assert_eq!(advance_terminal_column(10, ".", None), 11);
    assert_eq!(advance_terminal_column(11, "\nDone!", None), 5);
    assert_eq!(advance_terminal_column(0, "中\t", None), 8);
}

#[test]
fn test_advance_terminal_column_wraps_with_terminal_width() {
    assert_eq!(advance_terminal_column(0, "abcdef", Some(10)), 6);
    assert_eq!(advance_terminal_column(6, "abcdef", Some(10)), 2);
    assert_eq!(advance_terminal_column(0, "1234567890", Some(10)), 10);
    assert_eq!(advance_terminal_column(10, ".", Some(10)), 1);
    assert_eq!(advance_terminal_column(0, "12345\nabc", Some(10)), 3);
}

#[test]
fn test_advance_terminal_column_ignores_ansi_controls() {
    assert_eq!(advance_terminal_column(0, "\x1b[31mred\x1b[0m", None), 3);
    assert_eq!(
        advance_terminal_column(
            0,
            "\x1b]8;;https://example.com\x1b\\link\x1b]8;;\x1b\\",
            None,
        ),
        4
    );
    assert_eq!(advance_terminal_column(3, "\x08!", None), 3);
}

type State = UseOutputState<oneshot::Sender<bool>, &'static str>;

fn state() -> State {
    State::default()
}

#[test]
fn test_use_output_polling() {
    let mut use_output = state();
    assert!(!use_output.poll_change("waker"));

    let mut no_op_output = state();
    assert_eq!(no_op_output.stdout_print(String::new()), None);
    assert_eq!(no_op_output.stderr_print(String::new()), None);
    assert!(!no_op_output.poll_change("waker"));

    let disabled = copy_selection_no_clear(false, "abc");
    assert_eq!(disabled.text, "");
    assert!(!disabled.copy);

    assert_eq!(
        use_output
            .set_clipboard_with_multiplexer("copy".to_string(), MultiplexerPassthrough::Direct),
        Some("waker")
    );
    assert!(use_output.poll_change("waker"));

    let kept = copy_selection_no_clear(true, "opy");
    assert_eq!((kept.text.as_str(), kept.copy, kept.clear), ("opy", true, false));
    let cleared = copy_selection(true, "opy");
    assert_eq!((cleared.text.as_str(), cleared.copy, cleared.clear), ("opy", true, true));

    use_output.stdout_println("Hello, world!".to_string());
    assert!(use_output.poll_change("waker"));
    use_output.stderr_println("Hello, error!".to_string());
    assert!(use_output.poll_change("waker"));
    use_output.stdout_print("Hello, ".to_string());
    use_output.stdout_print("world!".to_string());
    use_output.stderr_print("Error: ".to_string());
    use_output.stderr_print("test".to_string());
    use_output.stderr_print("Warning: ".to_string());
    use_output.stderr_print("print test".to_string());
    assert!(use_output.poll_change("waker"));
}

#[test]
fn control_ack_is_pending_until_write_and_closes_when_owner_unmounts() {
    let mut owner = state();
    let (sender, mut ack) = oneshot::channel();
    assert!(owner
        .enqueue_control_sequence("\x1b]52;c;QQ==\x07".to_string(), sender)
        .is_ok());
    assert_eq!(ack.try_recv(), Ok(None));
    assert!(!owner.queue[0].affects_visible_output());
    owner.close();
    assert!(futures::executor::block_on(ack).is_err());
    let (sender, late) = oneshot::channel();
    assert!(owner.enqueue_control_sequence("late".to_string(), sender).is_err());
    assert!(owner.queue.is_empty());
    assert!(futures::executor::block_on(late).is_err());
}

#[test]
fn explicit_clipboard_wrapper_bypasses_provider_policy_and_fallback_remains_osc52() {
    let mut owner = state();
    owner.set_clipboard_with_multiplexer("A".to_string(), MultiplexerPassthrough::Screen);
    assert!(
        matches!(&owner.queue[0], Message::StdoutClipboard(text, MultiplexerPassthrough::Screen) if text == "A")
    );
    assert_eq!(osc52_clipboard_sequence("A"), "\x1b]52;c;QQ==\x07");
    assert_eq!(SelectionClipboardPath::default(), SelectionClipboardPath::Osc52);
}

fn described(actions: Vec<Action<oneshot::Sender<bool>>>) -> Vec<String> {
    actions
        .into_iter()
        .map(|action| match action {
            Action::ClearDisplay => "clear".to_string(),
            Action::Resume(col) => format!("resume {col}"),
            Action::FlushDisplay => "flush display".to_string(),
            Action::WriteStdout(text) => format!("out {text:?}"),
            Action::WriteStderr(text) => format!("err {text:?}"),
            Action::SetClipboard(text, multiplexer) => format!("clip {text:?} {multiplexer:?}"),
            Action::WriteControl(text) => format!("control {text:?}"),
            Action::WriteControlAcknowledged(text, sender) => {
                sender.send(true).unwrap();
                format!("acknowledged {text:?}")
            }
            Action::FlushStdout => "flush out".to_string(),
            Action::FlushStderr => "flush err".to_string(),
            Action::WriteDisplay(text) => format!("display {text:?}"),
        })
        .collect()
}

#[test]
fn unfinished_lines_are_gone_on_with() {
    let mut output = state();
    output.stdout_print("Working".to_string());
    assert_eq!(
        described(output.exec(true, Some(80))),
        [
            "clear",
            "flush display",
            "out \"Working\"",
            "flush out",
            "flush err",
            "display \"\\r\\n\"",
        ]
    );
    assert_eq!(output.appended_newline, Some(7));
    output.stdout_print("...".to_string());
    output.stderr_println("no\nmore".to_string());
    assert_eq!(
        described(output.exec(true, Some(80))),
        [
            "clear",
            "resume 7",
            "flush display",
            "out \"...\"",
            "err \"no\\r\\nmore\\r\\n\"",
            "flush out",
            "flush err",
        ]
    );
    assert_eq!(output.appended_newline, None);
    assert!(output.queue.is_empty());
    assert!(output.exec(true, Some(80)).is_empty());
}

#[test]
fn a_full_row_is_not_gone_on_with() {
    let mut output = state();
    output.stderr_print("12345".to_string());
    assert_eq!(described(output.exec(true, Some(5))).last().unwrap(), "display \"\\r\\n\"");
    assert_eq!(output.appended_newline, None);
    output.stdout_print("12345".to_string());
    described(output.exec(true, None));
    assert_eq!(output.appended_newline, Some(5));
}

#[test]
fn invisible_output_leaves_the_display_alone() {
    let mut output = state();
    output.stdout_print("abc".to_string());
    described(output.exec(true, None));
    let (sender, ack) = oneshot::channel();
    output.write_control_sequence(String::new());
    output.write_control_sequence("\x1b]9;1\x07".to_string());
    output.set_clipboard_with_multiplexer("t".to_string(), MultiplexerPassthrough::Tmux);
    output.enqueue_control_sequence("seq".to_string(), sender).unwrap();
    assert_eq!(
        described(output.exec(true, None)),
        [
            "control \"\\u{1b}]9;1\\u{7}\"",
            "clip \"t\" Tmux",
            "acknowledged \"seq\"",
        ]
    );
    assert_eq!(futures::executor::block_on(ack), Ok(true));
    assert_eq!(output.appended_newline, Some(3));
}

#[test]
fn messages_wait_for_a_terminal() {
    let mut output = state();
    output.stdout_println("a".to_string());
    assert!(output.exec(false, Some(80)).is_empty());
    assert_eq!(output.queue.len(), 1);
    assert_eq!(described(output.exec(true, Some(80)))[2], "out \"a\\r\\n\"");
}

#[test]
fn the_waker_is_handed_out_once() {
    let mut output = state();
    assert!(!output.poll_change("first"));
    assert_eq!(output.stdout_println("a".to_string()), Some("first"));
    assert_eq!(output.stdout_println("b".to_string()), None);
    assert!(output.poll_change("second"));
    assert_eq!(output.waker, None);
}

#[test]
fn normalizing_twice_changes_nothing_more() {
    let once = normalize_terminal_newlines("a\n\nb\r\nc\r").into_owned();
    assert_eq!(once, "a\r\n\r\nb\r\nc\r");
    assert!(matches!(normalize_terminal_newlines(&once), Cow::Borrowed(_)));
}

#[test]
fn columns_add_up() {
    for text in ["abc\x1b[1mdef\tg\x08", "中文字", "x\r\ny"] {
        let all = format!("hello{text}");
        assert_eq!(
            advance_terminal_column(advance_terminal_column(3, "hello", Some(9)), text, Some(9)),
            advance_terminal_column(3, &all, Some(9))
        );
    }
}

#[test]
fn columns_saturate_without_a_width() {
    assert_eq!(advance_printable_width(u16::MAX - 1, 5, None), u16::MAX);
    assert_eq!(advance_printable_width(7, 0, Some(3)), 7);
    assert_eq!(advance_printable_width(7, 2, Some(0)), 9);
    assert_eq!(advance_printable_width(4, 4, Some(5)), 3);
    assert_eq!(advance_terminal_column(0, "\x08\x07é\u{301}", None), 1);
}

#[test]
fn waiting_senders_are_answered_once_or_sent_back() {
    let mut output = state();
    let (sender, ack) = oneshot::channel();
    output.stdout_println("a".to_string());
    output.enqueue_control_sequence("seq".to_string(), sender).unwrap();
    assert!(output.exec(false, Some(80)).is_empty());
    let written = described(output.exec(true, Some(80)));
    assert_eq!(written.iter().filter(|action| action.starts_with("acknowledged")).count(), 1);
    assert_eq!(futures::executor::block_on(ack), Ok(true));
    assert!(output.exec(true, Some(80)).is_empty());

    let (sender, lost) = oneshot::channel();
    output.enqueue_control_sequence("seq".to_string(), sender).unwrap();
    output.close();
    assert!(output.exec(true, Some(80)).is_empty());
    assert!(futures::executor::block_on(lost).is_err());
    output.stdout_println("b".to_string());
    let (sender, _late) = oneshot::channel();
    assert!(output.enqueue_control_sequence("late".to_string(), sender).is_err());
    assert_eq!(output.queue.len(), 1);
}

#[test]
fn normalizing_adds_carriage_returns_only() {
    let text = "\na\r\nb\n\r\n\n";
    let normalized = normalize_terminal_newlines(text);
    assert_eq!(normalized, "\r\na\r\nb\r\n\r\n\r\n");
    assert_eq!(normalized.replace('\r', ""), text.replace('\r', ""));
}
