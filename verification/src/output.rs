//! Output above a live display: what is queued, and what a terminal is to be
//! given for it.
pub mod laws;

use crate::ansi::MultiplexerPassthrough;
use crate::chars;
use crate::chars::{chars_of, is_control, push_char, push_range};
use crate::display;
use crate::display::width_of_char;
use crate::strip_ansi;
use crate::strip_ansi::{skip_ansi_escape, ESC};
use std::borrow::Cow;
use vstd::prelude::*;

verus! {

/// Whether the line feed at position `i` of `s` lacks its carriage return.
pub open spec fn bare_line_feed(s: Seq<char>, i: int) -> bool {
    s[i] == '\n' && (i == 0 || s[i - 1] != '\r')
}

/// `s` with a carriage return put before each line feed that lacks one.
pub open spec fn normalized(s: Seq<char>) -> Seq<char>
    decreases s.len(),
{
    if s.len() == 0 {
        Seq::empty()
    } else if bare_line_feed(s, s.len() - 1) {
        normalized(s.drop_last()).push('\r').push('\n')
    } else {
        normalized(s.drop_last()).push(s.last())
    }
}

/// A text without bare line feeds stays as it is.
pub proof fn nothing_to_normalize(s: Seq<char>)
    requires
        forall|i: int| 0 <= i < s.len() ==> !bare_line_feed(s, i),
    ensures
        normalized(s) == s,
    decreases s.len(),
{
    if s.len() > 0 {
        let t = s.drop_last();
        assert forall|i: int| 0 <= i < t.len() implies !bare_line_feed(t, i) by {
            assert(!bare_line_feed(s, i));
        }
        nothing_to_normalize(t);
        assert(!bare_line_feed(s, s.len() - 1));
        assert(t.push(s.last()) =~= s);
    }
}

/// Puts a carriage return before each line feed of a text that lacks one. A
/// text that lacks none is handed back as it is.
pub fn normalize_terminal_newlines(text: &str) -> (r: Cow<'_, str>)
    ensures
        r@ == normalized(text@),
        r is Borrowed <==> forall|i: int| 0 <= i < text@.len() ==> !bare_line_feed(text@, i),
{
    let s = chars_of(text);
    let mut i: usize = 0;
    while i < s.len() && !(s[i] == '\n' && (i == 0 || s[i - 1] != '\r'))
        invariant
            s@ == text@,
            i <= s@.len(),
            forall|j: int| 0 <= j < i ==> !bare_line_feed(s@, j),
        decreases s@.len() - i,
    {
        i = i + 1;
    }
    if i == s.len() {
        proof {
            nothing_to_normalize(text@);
        }
        return Cow::Borrowed(text);
    }
    assert(bare_line_feed(text@, i as int));
    let mut out = String::new();
    push_range(&mut out, &s, 0, i);
    proof {
        let head = s@.take(i as int);
        assert(out@ =~= head);
        assert forall|j: int| 0 <= j < head.len() implies !bare_line_feed(head, j) by {
            assert(!bare_line_feed(s@, j));
        }
        nothing_to_normalize(head);
    }
    while i < s.len()
        invariant
            s@ == text@,
            i <= s@.len(),
            out@ == normalized(s@.take(i as int)),
        decreases s@.len() - i,
    {
        proof {
            let t = s@.take(i + 1);
            assert(t.drop_last() =~= s@.take(i as int));
            assert(bare_line_feed(t, i as int) == bare_line_feed(s@, i as int));
        }
        if s[i] == '\n' && (i == 0 || s[i - 1] != '\r') {
            push_char(&mut out, '\r');
        }
        push_char(&mut out, s[i]);
        i = i + 1;
    }
    assert(s@.take(i as int) =~= s@);
    Cow::Owned(out)
}

/// The column after printing `n` columns at column `col`. A terminal without
/// a known width never wraps. At the right margin the cursor stays behind the
/// last column until the next character wraps it to the next row.
pub open spec fn column_after_printing(col: u16, n: usize, terminal_width: Option<usize>) -> u16 {
    if n == 0 {
        col
    } else if terminal_width is None || terminal_width == Some(0usize) {
        if col + n > u16::MAX {
            u16::MAX
        } else {
            (col + n) as u16
        }
    } else {
        let width = terminal_width->0 as int;
        let start = if col >= width {
            0
        } else {
            col as int
        };
        let end = display::clamp_columns(start + n);
        if end <= width {
            (end % 0x1_0000) as u16
        } else {
            (end % width % 0x1_0000) as u16
        }
    }
}

/// Moves a column over a printed character of a given width.
pub fn advance_printable_width(
    col: u16,
    char_width: usize,
    terminal_width: Option<usize>,
) -> (r: u16)
    ensures
        r == column_after_printing(col, char_width, terminal_width),
{
    if char_width == 0 {
        return col;
    }
    let width: usize = match terminal_width {
        Some(width) => width,
        None => 0,
    };
    if width == 0 {
        let rest: u16 = u16::MAX - col;
        return if char_width > rest as usize {
            u16::MAX
        } else {
            col + char_width as u16
        };
    }
    let start: usize = if col as usize >= width {
        0
    } else {
        col as usize
    };
    let end: usize = if char_width > usize::MAX - start {
        usize::MAX
    } else {
        start + char_width
    };
    if end <= width {
        (end % 0x1_0000) as u16
    } else {
        (end % width % 0x1_0000) as u16
    }
}

/// The column after one character that begins no escape sequence.
pub open spec fn column_after_char(col: u16, c: char, terminal_width: Option<usize>) -> u16 {
    if c == '\r' || c == '\n' {
        0
    } else if c == '\t' {
        column_after_printing(col, (8 - col as int % 8) as usize, terminal_width)
    } else if c == '\u{8}' {
        if col == 0 {
            0
        } else {
            (col - 1) as u16
        }
    } else if chars::control(c) {
        col
    } else {
        match display::char_width(c) {
            Some(n) => column_after_printing(col, n, terminal_width),
            None => col,
        }
    }
}

/// The column after the text `s` from position `at` on. Escape sequences do
/// not move the cursor.
pub open spec fn column_after_text(
    s: Seq<char>,
    at: int,
    col: u16,
    terminal_width: Option<usize>,
) -> u16
    decreases s.len() - at,
    when 0 <= at
    via column_after_text_shrinks
{
    if at >= s.len() {
        col
    } else if s[at] == ESC {
        column_after_text(s, strip_ansi::escape_end(s, at + 1), col, terminal_width)
    } else {
        column_after_text(
            s,
            at + 1,
            column_after_char(col, s[at], terminal_width),
            terminal_width,
        )
    }
}

#[via_fn]
proof fn column_after_text_shrinks(
    s: Seq<char>,
    at: int,
    col: u16,
    terminal_width: Option<usize>,
) {
    if 0 <= at < s.len() {
        strip_ansi::escape_end_bounds(s, at + 1);
    }
}

/// Moves a column over a character that begins no escape sequence.
fn advance_char(col: u16, c: char, terminal_width: Option<usize>) -> (r: u16)
    ensures
        r == column_after_char(col, c, terminal_width),
        chars::printable_ascii(c) ==> display::char_width(c) == Some(1usize),
{
    if c == '\r' || c == '\n' {
        0
    } else if c == '\t' {
        advance_printable_width(col, (8 - col % 8) as usize, terminal_width)
    } else if c == '\u{8}' {
        if col == 0 {
            0
        } else {
            col - 1
        }
    } else if is_control(c) {
        col
    } else {
        match width_of_char(c) {
            Some(n) => advance_printable_width(col, n, terminal_width),
            None => col,
        }
    }
}

/// Moves a column over a text. A printable ASCII character outside escape
/// sequences moves it by one column.
pub fn advance_terminal_column(col: u16, text: &str, terminal_width: Option<usize>) -> (r: u16)
    ensures
        r == column_after_text(text@, 0, col, terminal_width),
        !text@.contains(ESC) ==> forall|i: int|
            0 <= i < text@.len() && chars::printable_ascii(text@[i]) ==> display::char_width(
                #[trigger] text@[i],
            ) == Some(1usize),
{
    let s = chars_of(text);
    let mut at: usize = 0;
    let mut current: u16 = col;
    while at < s.len()
        invariant
            s@ == text@,
            at <= s@.len(),
            column_after_text(s@, at as int, current, terminal_width) == column_after_text(
                text@,
                0,
                col,
                terminal_width,
            ),
            !text@.contains(ESC) ==> forall|i: int|
                0 <= i < at && chars::printable_ascii(text@[i]) ==> display::char_width(
                    #[trigger] text@[i],
                ) == Some(1usize),
        decreases s@.len() - at,
    {
        if s[at] == ESC {
            assert(text@.contains(ESC));
            at = skip_ansi_escape(&s, at + 1);
        } else {
            current = advance_char(current, s[at], terminal_width);
            at = at + 1;
        }
    }
    current
}

/// A queued piece of output. `A` is what tells the sender of a control
/// sequence that it was written.
#[derive(Debug)]
pub enum Message<A> {
    /// A line for standard output.
    Stdout(String),
    /// A text for standard output that ends no line.
    StdoutNoNewline(String),
    /// A text for the clipboard.
    StdoutClipboard(String, MultiplexerPassthrough),
    /// A control sequence.
    StdoutControl(String),
    /// A control sequence whose sender waits for it.
    StdoutControlAcknowledged(String, A),
    /// A line for standard error.
    Stderr(String),
    /// A text for standard error that ends no line.
    StderrNoNewline(String),
}

/// What a queued piece of output stands for.
#[verifier::ext_equal]
pub enum MessageView<A> {
    Stdout(Seq<char>),
    StdoutNoNewline(Seq<char>),
    StdoutClipboard(Seq<char>, MultiplexerPassthrough),
    StdoutControl(Seq<char>),
    StdoutControlAcknowledged(Seq<char>, A),
    Stderr(Seq<char>),
    StderrNoNewline(Seq<char>),
}

impl<A> View for Message<A> {
    type V = MessageView<A>;

    open spec fn view(&self) -> MessageView<A> {
        match *self {
            Message::Stdout(text) => MessageView::Stdout(text@),
            Message::StdoutNoNewline(text) => MessageView::StdoutNoNewline(text@),
            Message::StdoutClipboard(text, multiplexer) => MessageView::StdoutClipboard(
                text@,
                multiplexer,
            ),
            Message::StdoutControl(text) => MessageView::StdoutControl(text@),
            Message::StdoutControlAcknowledged(
                text,
                sender,
            ) => MessageView::StdoutControlAcknowledged(text@, sender),
            Message::Stderr(text) => MessageView::Stderr(text@),
            Message::StderrNoNewline(text) => MessageView::StderrNoNewline(text@),
        }
    }
}

/// Whether a message is text that is seen on the terminal. The clipboard and
/// control sequences are not.
pub open spec fn is_visible<A>(message: MessageView<A>) -> bool {
    match message {
        MessageView::StdoutClipboard(..) => false,
        MessageView::StdoutControl(_) => false,
        MessageView::StdoutControlAcknowledged(..) => false,
        _ => true,
    }
}

impl<A> Message<A> {
    /// Whether the message is text that is seen on the terminal.
    pub fn affects_visible_output(&self) -> (r: bool)
        ensures
            r == is_visible(self@),
    {
        match self {
            Message::StdoutClipboard(..) => false,
            Message::StdoutControl(_) => false,
            Message::StdoutControlAcknowledged(..) => false,
            _ => true,
        }
    }
}

/// What a terminal is to be given.
#[derive(Debug)]
pub enum Action<A> {
    /// Clear the live display.
    ClearDisplay,
    /// Move up one row, then right by so many columns.
    Resume(u16),
    /// Flush what the display is written to.
    FlushDisplay,
    /// Write to standard output.
    WriteStdout(String),
    /// Write to standard error.
    WriteStderr(String),
    /// Put a text on the clipboard.
    SetClipboard(String, MultiplexerPassthrough),
    /// Write a control sequence.
    WriteControl(String),
    /// Write a control sequence and hand its sender the outcome.
    WriteControlAcknowledged(String, A),
    /// Flush standard output.
    FlushStdout,
    /// Flush standard error.
    FlushStderr,
    /// Write to what the display is written to.
    WriteDisplay(String),
}

/// What an action stands for.
#[verifier::ext_equal]
pub enum ActionView<A> {
    ClearDisplay,
    Resume(u16),
    FlushDisplay,
    WriteStdout(Seq<char>),
    WriteStderr(Seq<char>),
    SetClipboard(Seq<char>, MultiplexerPassthrough),
    WriteControl(Seq<char>),
    WriteControlAcknowledged(Seq<char>, A),
    FlushStdout,
    FlushStderr,
    WriteDisplay(Seq<char>),
}

impl<A> View for Action<A> {
    type V = ActionView<A>;

    open spec fn view(&self) -> ActionView<A> {
        match *self {
            Action::ClearDisplay => ActionView::ClearDisplay,
            Action::Resume(col) => ActionView::Resume(col),
            Action::FlushDisplay => ActionView::FlushDisplay,
            Action::WriteStdout(text) => ActionView::WriteStdout(text@),
            Action::WriteStderr(text) => ActionView::WriteStderr(text@),
            Action::SetClipboard(text, multiplexer) => ActionView::SetClipboard(text@, multiplexer),
            Action::WriteControl(text) => ActionView::WriteControl(text@),
            Action::WriteControlAcknowledged(text, sender) => ActionView::WriteControlAcknowledged(
                text@,
                sender,
            ),
            Action::FlushStdout => ActionView::FlushStdout,
            Action::FlushStderr => ActionView::FlushStderr,
            Action::WriteDisplay(text) => ActionView::WriteDisplay(text@),
        }
    }
}

/// What is written for a message.
pub open spec fn written<A>(message: MessageView<A>) -> ActionView<A> {
    match message {
        MessageView::Stdout(text) => ActionView::WriteStdout(normalized(text) + "\r\n"@),
        MessageView::StdoutNoNewline(text) => ActionView::WriteStdout(normalized(text)),
        MessageView::StdoutClipboard(text, multiplexer) => ActionView::SetClipboard(
            text,
            multiplexer,
        ),
        MessageView::StdoutControl(text) => ActionView::WriteControl(text),
        MessageView::StdoutControlAcknowledged(
            text,
            sender,
        ) => ActionView::WriteControlAcknowledged(text, sender),
        MessageView::Stderr(text) => ActionView::WriteStderr(normalized(text) + "\r\n"@),
        MessageView::StderrNoNewline(text) => ActionView::WriteStderr(normalized(text)),
    }
}

/// The column after a message.
pub open spec fn column_after_message<A>(
    message: MessageView<A>,
    col: u16,
    terminal_width: Option<usize>,
) -> u16 {
    match message {
        MessageView::Stdout(_) => 0,
        MessageView::Stderr(_) => 0,
        MessageView::StdoutNoNewline(text) => column_after_text(text, 0, col, terminal_width),
        MessageView::StderrNoNewline(text) => column_after_text(text, 0, col, terminal_width),
        _ => col,
    }
}

/// The column after a list of messages.
pub open spec fn column_after_messages<A>(
    messages: Seq<MessageView<A>>,
    col: u16,
    terminal_width: Option<usize>,
) -> u16
    decreases messages.len(),
{
    if messages.len() == 0 {
        col
    } else {
        column_after_message(
            messages.last(),
            column_after_messages(messages.drop_last(), col, terminal_width),
            terminal_width,
        )
    }
}

/// Whether a list of messages holds one that is seen on the terminal.
pub open spec fn any_visible<A>(messages: Seq<MessageView<A>>) -> bool {
    exists|i: int| 0 <= i < messages.len() && is_visible(#[trigger] messages[i])
}

/// The column that output goes on at.
pub open spec fn resume_column(appended_newline: Option<u16>) -> u16 {
    match appended_newline {
        Some(col) => col,
        None => 0,
    }
}

/// A terminal width in columns.
pub open spec fn width_columns(terminal_width: Option<u16>) -> Option<usize> {
    match terminal_width {
        Some(width) => Some(width as usize),
        None => None,
    }
}

/// What comes before visible output: the display is cleared, and an unfinished
/// line of earlier output is gone on with.
pub open spec fn opening<A>(visible: bool, appended_newline: Option<u16>) -> Seq<ActionView<A>> {
    if !visible {
        Seq::empty()
    } else {
        match appended_newline {
            Some(col) => seq![
                ActionView::ClearDisplay,
                ActionView::Resume(col),
                ActionView::FlushDisplay,
            ],
            None => seq![ActionView::ClearDisplay, ActionView::FlushDisplay],
        }
    }
}

/// What comes after visible output: an unfinished line is ended, so that the
/// display begins on a row of its own.
pub open spec fn closing<A>(visible: bool, col: u16) -> Seq<ActionView<A>> {
    if !visible {
        Seq::empty()
    } else if col > 0 {
        seq![
            ActionView::FlushStdout,
            ActionView::FlushStderr,
            ActionView::WriteDisplay("\r\n"@),
        ]
    } else {
        seq![ActionView::FlushStdout, ActionView::FlushStderr]
    }
}

/// All that a terminal is to be given for the queued messages.
pub open spec fn planned<A>(
    messages: Seq<MessageView<A>>,
    appended_newline: Option<u16>,
    terminal_width: Option<u16>,
) -> Seq<ActionView<A>> {
    let visible = any_visible(messages);
    let col = column_after_messages(
        messages,
        resume_column(appended_newline),
        width_columns(terminal_width),
    );
    opening(visible, appended_newline) + messages.map_values(|m: MessageView<A>| written(m))
        + closing(visible, col)
}

/// The column that the next output goes on at: that of an unfinished line,
/// unless the line has reached the right margin.
pub open spec fn next_resume(col: u16, terminal_width: Option<u16>) -> Option<u16> {
    if col == 0 || (terminal_width matches Some(width) && col >= width) {
        None
    } else {
        Some(col)
    }
}

/// The views of a list of messages.
pub open spec fn message_views<A>(messages: Seq<Message<A>>) -> Seq<MessageView<A>> {
    messages.map_values(|m: Message<A>| m@)
}

/// The views of a list of actions.
pub open spec fn action_views<A>(actions: Seq<Action<A>>) -> Seq<ActionView<A>> {
    actions.map_values(|action: Action<A>| action@)
}

/// What waiting output stands for.
#[verifier::ext_equal]
pub struct OutputView<A> {
    /// Whether the owner of the output is gone.
    pub closed: bool,
    /// The messages that wait, in order.
    pub messages: Seq<MessageView<A>>,
    /// Where the last visible line ends, if a line break was put after it that
    /// is not part of the output.
    pub appended_newline: Option<u16>,
}

/// What can happen to waiting output.
pub enum OutputEvent<A> {
    /// A message comes whose sender does not wait for it.
    Queue(MessageView<A>),
    /// A control sequence comes whose sender waits for it.
    Acknowledge(Seq<char>, A),
    /// The output is written, if there is a terminal, whose width may be known.
    Write(bool, Option<u16>),
    /// The owner of the output goes.
    Close,
}

impl<A> OutputView<A> {
    /// The output after an event.
    pub open spec fn after(self, event: OutputEvent<A>) -> OutputView<A> {
        match event {
            OutputEvent::Queue(message) => OutputView {
                messages: self.messages.push(message),
                ..self
            },
            OutputEvent::Acknowledge(sequence, sender) => if self.closed {
                self
            } else {
                OutputView {
                    messages: self.messages.push(
                        MessageView::StdoutControlAcknowledged(sequence, sender),
                    ),
                    ..self
                }
            },
            OutputEvent::Write(has_terminal, terminal_width) => if !has_terminal
                || self.messages.len() == 0 {
                self
            } else {
                OutputView {
                    messages: Seq::empty(),
                    appended_newline: if any_visible(self.messages) {
                        next_resume(
                            column_after_messages(
                                self.messages,
                                resume_column(self.appended_newline),
                                width_columns(terminal_width),
                            ),
                            terminal_width,
                        )
                    } else {
                        self.appended_newline
                    },
                    ..self
                }
            },
            OutputEvent::Close => OutputView { closed: true, messages: Seq::empty(), ..self },
        }
    }

    /// What a terminal is to be given at an event.
    pub open spec fn plan(self, event: OutputEvent<A>) -> Seq<ActionView<A>> {
        match event {
            OutputEvent::Write(has_terminal, terminal_width) => if !has_terminal
                || self.messages.len() == 0 {
                Seq::empty()
            } else {
                planned(self.messages, self.appended_newline, terminal_width)
            },
            _ => Seq::empty(),
        }
    }

    /// The output after several events.
    pub open spec fn after_all(self, events: Seq<OutputEvent<A>>) -> OutputView<A>
        decreases events.len(),
    {
        if events.len() == 0 {
            self
        } else {
            self.after_all(events.drop_last()).after(events.last())
        }
    }

    /// What a terminal is to be given over several events.
    pub open spec fn plan_all(self, events: Seq<OutputEvent<A>>) -> Seq<ActionView<A>>
        decreases events.len(),
    {
        if events.len() == 0 {
            Seq::empty()
        } else {
            self.plan_all(events.drop_last()) + self.after_all(events.drop_last()).plan(
                events.last(),
            )
        }
    }
}

/// Output that waits for the terminal. `W` is what wakes the one who writes
/// it.
#[derive(Debug)]
pub struct UseOutputState<A, W> {
    /// Whether the owner of the output is gone.
    pub closed: bool,
    /// What is to be written, in order.
    pub queue: Vec<Message<A>>,
    /// Whom to wake when there is something to write.
    pub waker: Option<W>,
    /// Where the last visible line ends, if a line break was put after it that
    /// is not part of the output.
    pub appended_newline: Option<u16>,
}

impl<A, W> Default for UseOutputState<A, W> {
    fn default() -> (r: UseOutputState<A, W>)
        ensures
            !r.closed,
            r.queue@.len() == 0,
            r.waker is None,
            r.appended_newline is None,
    {
        UseOutputState { closed: false, queue: Vec::new(), waker: None, appended_newline: None }
    }
}

/// Takes the waker out of its place.
fn take_waker<W>(waker: &mut Option<W>) -> (r: Option<W>)
    ensures
        r == *old(waker),
        *final(waker) == None::<W>,
{
    waker.take()
}

impl<A, W> UseOutputState<A, W> {
    /// The messages that wait, in order.
    pub open spec fn messages(self) -> Seq<MessageView<A>> {
        message_views(self.queue@)
    }

    /// What the output stands for, whoever is to be woken.
    pub open spec fn model(self) -> OutputView<A> {
        OutputView {
            closed: self.closed,
            messages: self.messages(),
            appended_newline: self.appended_newline,
        }
    }

    /// Queues a message. The result is to be woken.
    fn enqueue(&mut self, message: Message<A>) -> (r: Option<W>)
        ensures
            final(self).model() == old(self).model().after(
                OutputEvent::Queue(message@),
            ),
            r == old(self).waker,
            final(self).waker is None,
    {
        self.queue.push(message);
        assert(self.messages() =~= old(self).messages().push(message@));
        take_waker(&mut self.waker)
    }

    /// Queues a line for standard output. The result is to be woken.
    pub fn stdout_println(&mut self, text: String) -> (r: Option<W>)
        ensures
            final(self).model() == old(self).model().after(
                OutputEvent::Queue(MessageView::Stdout(text@)),
            ),
            r == old(self).waker,
            final(self).waker is None,
    {
        self.enqueue(Message::Stdout(text))
    }

    /// Queues a text for standard output that ends no line. An empty text is
    /// not queued and wakes nobody.
    pub fn stdout_print(&mut self, text: String) -> (r: Option<W>)
        ensures
            text@.len() == 0 ==> *final(self) == *old(self) && r is None,
            text@.len() > 0 ==> final(self).model() == old(self).model().after(
                OutputEvent::Queue(MessageView::StdoutNoNewline(text@)),
            ) && r == old(self).waker && final(self).waker is None,
    {
        if text.as_str().is_empty() {
            return None;
        }
        self.enqueue(Message::StdoutNoNewline(text))
    }

    /// Queues a line for standard error. The result is to be woken.
    pub fn stderr_println(&mut self, text: String) -> (r: Option<W>)
        ensures
            final(self).model() == old(self).model().after(
                OutputEvent::Queue(MessageView::Stderr(text@)),
            ),
            r == old(self).waker,
            final(self).waker is None,
    {
        self.enqueue(Message::Stderr(text))
    }

    /// Queues a text for standard error that ends no line. An empty text is
    /// not queued and wakes nobody.
    pub fn stderr_print(&mut self, text: String) -> (r: Option<W>)
        ensures
            text@.len() == 0 ==> *final(self) == *old(self) && r is None,
            text@.len() > 0 ==> final(self).model() == old(self).model().after(
                OutputEvent::Queue(MessageView::StderrNoNewline(text@)),
            ) && r == old(self).waker && final(self).waker is None,
    {
        if text.as_str().is_empty() {
            return None;
        }
        self.enqueue(Message::StderrNoNewline(text))
    }

    /// Queues a control sequence. An empty one is not queued and wakes nobody.
    pub fn write_control_sequence(&mut self, sequence: String) -> (r: Option<W>)
        ensures
            sequence@.len() == 0 ==> *final(self) == *old(self) && r is None,
            sequence@.len() > 0 ==> final(self).model() == old(self).model().after(
                OutputEvent::Queue(MessageView::StdoutControl(sequence@)),
            ) && r == old(self).waker && final(self).waker is None,
    {
        if sequence.as_str().is_empty() {
            return None;
        }
        self.enqueue(Message::StdoutControl(sequence))
    }

    /// Queues a text for the clipboard. The result is to be woken.
    pub fn set_clipboard_with_multiplexer(
        &mut self,
        text: String,
        multiplexer: MultiplexerPassthrough,
    ) -> (r: Option<W>)
        ensures
            final(self).model() == old(self).model().after(
                OutputEvent::Queue(MessageView::StdoutClipboard(text@, multiplexer)),
            ),
            r == old(self).waker,
            final(self).waker is None,
    {
        self.enqueue(Message::StdoutClipboard(text, multiplexer))
    }

    /// Queues a control sequence whose sender waits for it. Where the owner of
    /// the output is gone, the sender is handed back and nothing is queued.
    pub fn enqueue_control_sequence(&mut self, sequence: String, sender: A) -> (r: Result<
        Option<W>,
        A,
    >)
        ensures
            old(self).closed ==> r == Err::<Option<W>, A>(sender) && *final(self) == *old(self),
            !old(self).closed ==> r == Ok::<Option<W>, A>(old(self).waker)
                && final(self).waker is None,
            final(self).model() == old(self).model().after(
                OutputEvent::Acknowledge(sequence@, sender),
            ),
    {
        if self.closed {
            return Err(sender);
        }
        Ok(self.enqueue(Message::StdoutControlAcknowledged(sequence, sender)))
    }

    /// Whether there is something to write. Where there is not, `waker` is
    /// kept for the time when there is.
    pub fn poll_change(&mut self, waker: W) -> (r: bool)
        ensures
            r == (old(self).queue@.len() > 0),
            r ==> *final(self) == *old(self),
            !r ==> final(self).waker == Some(waker),
            final(self).queue@ == old(self).queue@,
            final(self).closed == old(self).closed,
            final(self).appended_newline == old(self).appended_newline,
    {
        if self.queue.len() == 0 {
            self.waker = Some(waker);
            false
        } else {
            true
        }
    }

    /// Closes the output when its owner goes. What was queued is dropped.
    pub fn close(&mut self)
        ensures
            final(self).model() == old(self).model().after(OutputEvent::Close),
            final(self).waker == old(self).waker,
    {
        self.closed = true;
        self.queue.clear();
        assert(self.messages() =~= Seq::empty());
    }

    /// Whether a message waits that is seen on the terminal.
    fn has_visible_output(&self) -> (r: bool)
        ensures
            r == any_visible(self.messages()),
    {
        let mut i: usize = 0;
        while i < self.queue.len()
            invariant
                i <= self.queue@.len(),
                forall|j: int| 0 <= j < i ==> !is_visible(#[trigger] self.messages()[j]),
            decreases self.queue@.len() - i,
        {
            assert(self.messages()[i as int] == self.queue@[i as int]@);
            if self.queue[i].affects_visible_output() {
                return true;
            }
            i = i + 1;
        }
        false
    }

    /// Empties the queue into what a terminal is to be given. Without a
    /// terminal the messages stay queued. `terminal_width` is the width of the
    /// terminal where it is known.
    ///
    /// Visible output goes above the live display, which is cleared for it.
    /// Where the last line was left unfinished, output goes on behind it; the
    /// column is counted here, and not asked of the terminal.
    pub fn exec(&mut self, has_terminal: bool, terminal_width: Option<u16>) -> (r: Vec<Action<A>>)
        ensures
            final(self).model() == old(self).model().after(
                OutputEvent::Write(has_terminal, terminal_width),
            ),
            action_views(r@) == old(self).model().plan(
                OutputEvent::Write(has_terminal, terminal_width),
            ),
            final(self).waker == old(self).waker,
    {
        let mut actions: Vec<Action<A>> = Vec::new();
        if self.queue.len() == 0 || !has_terminal {
            assert(action_views(actions@) =~= Seq::empty());
            return actions;
        }
        let visible = self.has_visible_output();
        if visible {
            actions.push(Action::ClearDisplay);
            if let Some(col) = self.appended_newline {
                actions.push(Action::Resume(col));
            }
            actions.push(Action::FlushDisplay);
        }
        let ghost messages = self.messages();
        let ghost before = opening::<A>(visible, self.appended_newline);
        assert(action_views(actions@) =~= before);
        let width: Option<usize> = match terminal_width {
            Some(width) => Some(width as usize),
            None => None,
        };
        let mut col: u16 = match self.appended_newline {
            Some(col) => col,
            None => 0,
        };
        let ghost start = col;
        let mut queue: Vec<Message<A>> = Vec::new();
        std::mem::swap(&mut queue, &mut self.queue);
        assert(message_views(queue@) =~= messages);
        assert(messages.take(0) =~= Seq::empty());
        assert(before + messages.take(0).map_values(|m: MessageView<A>| written(m)) =~= before);
        for message in it: queue
            invariant
                it.seq() == queue@,
                message_views(queue@) == messages,
                0 <= it.index() <= messages.len(),
                action_views(actions@) == before + messages.take(it.index()).map_values(
                    |m: MessageView<A>| written(m),
                ),
                col == column_after_messages(messages.take(it.index()), start, width),
        {
            let ghost i = it.index();
            let ghost done = action_views(actions@);
            proof {
                assert(messages[i] == message@);
                assert(messages.take(i + 1).drop_last() =~= messages.take(i));
                assert(messages.take(i + 1).map_values(|m: MessageView<A>| written(m))
                    =~= messages.take(i).map_values(|m: MessageView<A>| written(m)).push(
                    written(message@),
                ));
            }
            let action = match message {
                Message::Stdout(text) => {
                    col = 0;
                    Action::WriteStdout(with_line_end(text.as_str()))
                },
                Message::StdoutNoNewline(text) => {
                    col = advance_terminal_column(col, text.as_str(), width);
                    Action::WriteStdout(normalize_to_string(text.as_str()))
                },
                Message::StdoutClipboard(text, multiplexer) => Action::SetClipboard(
                    text,
                    multiplexer,
                ),
                Message::StdoutControl(sequence) => Action::WriteControl(sequence),
                Message::StdoutControlAcknowledged(
                    sequence,
                    sender,
                ) => Action::WriteControlAcknowledged(sequence, sender),
                Message::Stderr(text) => {
                    col = 0;
                    Action::WriteStderr(with_line_end(text.as_str()))
                },
                Message::StderrNoNewline(text) => {
                    col = advance_terminal_column(col, text.as_str(), width);
                    Action::WriteStderr(normalize_to_string(text.as_str()))
                },
            };
            actions.push(action);
            assert(action_views(actions@) =~= done.push(written(message@)));
        }
        assert(messages.take(messages.len() as int) =~= messages);
        let ghost written_so_far = action_views(actions@);
        if visible {
            actions.push(Action::FlushStdout);
            actions.push(Action::FlushStderr);
            if col > 0 {
                self.appended_newline = match terminal_width {
                    Some(width) if col >= width => None,
                    _ => Some(col),
                };
                actions.push(Action::WriteDisplay("\r\n".to_owned()));
            } else {
                self.appended_newline = None;
            }
        }
        assert(action_views(actions@) =~= written_so_far + closing::<A>(visible, col));
        actions
    }
}

/// A text with its line feeds normalized, as a string of its own.
fn normalize_to_string(text: &str) -> (r: String)
    ensures
        r@ == normalized(text@),
{
    match normalize_terminal_newlines(text) {
        Cow::Borrowed(text) => text.to_owned(),
        Cow::Owned(text) => text,
    }
}

/// A text with its line feeds normalized and its line ended.
fn with_line_end(text: &str) -> (r: String)
    ensures
        r@ == normalized(text@) + "\r\n"@,
{
    let mut out = normalize_to_string(text);
    out.append("\r\n");
    out
}

/// What is done about a selection: the text handed back, whether it goes to
/// the clipboard, and whether the selection is cleared.
#[derive(Debug, PartialEq, Eq)]
pub struct SelectionCopy {
    pub text: String,
    pub copy: bool,
    pub clear: bool,
}

/// Copies the selected text and keeps the selection. Without a selection, or
/// with an empty one, nothing goes to the clipboard.
pub fn copy_selection_no_clear(has_selection: bool, selected: &str) -> (r: SelectionCopy)
    ensures
        r.text@ == if has_selection {
            selected@
        } else {
            ""@
        },
        r.copy == (has_selection && selected@.len() > 0),
        !r.clear,
{
    if !has_selection {
        return SelectionCopy { text: "".to_owned(), copy: false, clear: false };
    }
    SelectionCopy { text: selected.to_owned(), copy: !selected.is_empty(), clear: false }
}

/// Copies the selected text and clears the selection, if there is one.
pub fn copy_selection(has_selection: bool, selected: &str) -> (r: SelectionCopy)
    ensures
        r.text@ == if has_selection {
            selected@
        } else {
            ""@
        },
        r.copy == (has_selection && selected@.len() > 0),
        r.clear == has_selection,
{
    let kept = copy_selection_no_clear(has_selection, selected);
    SelectionCopy { text: kept.text, copy: kept.copy, clear: has_selection }
}

} // verus!
