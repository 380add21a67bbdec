//! What holds of all output.
use crate::ansi::MultiplexerPassthrough;
use crate::chars;
use crate::display;
use crate::output;
use crate::output::{ActionView, MessageView, OutputEvent, OutputView};
use crate::strip_ansi;
use crate::strip_ansi::ESC;
use vstd::prelude::*;

verus! {

/// After normalization no line feed lacks its carriage return.
pub proof fn normalized_has_no_bare_line_feed(s: Seq<char>)
    ensures
        forall|i: int|
            0 <= i < output::normalized(s).len() ==> !output::bare_line_feed(
                output::normalized(s),
                i,
            ),
        s.len() > 0 ==> output::normalized(s).len() > 0 && output::normalized(s).last() == s.last(),
        s.len() == 0 ==> output::normalized(s).len() == 0,
    decreases s.len(),
{
    if s.len() > 0 {
        let t = s.drop_last();
        let before = output::normalized(t);
        let r = output::normalized(s);
        normalized_has_no_bare_line_feed(t);
        assert forall|i: int| 0 <= i < r.len() implies !output::bare_line_feed(r, i) by {
            if i < before.len() {
                assert(!output::bare_line_feed(before, i));
                assert(r[i] == before[i]);
                if i > 0 {
                    assert(r[i - 1] == before[i - 1]);
                }
            }
        }
    }
}

/// Normalizing twice is the same as normalizing once.
pub proof fn normalizing_is_idempotent(s: Seq<char>)
    ensures
        output::normalized(output::normalized(s)) == output::normalized(s),
{
    normalized_has_no_bare_line_feed(s);
    output::nothing_to_normalize(output::normalized(s));
}

/// Normalizing puts in carriage returns and nothing else: without carriage
/// returns a text is the same before and after.
pub proof fn normalizing_adds_carriage_returns_only(s: Seq<char>)
    ensures
        chars::keep(output::normalized(s), |c: char| c != '\r') == chars::keep(
            s,
            |c: char| c != '\r',
        ),
    decreases s.len(),
{
    if s.len() > 0 {
        let class = |c: char| c != '\r';
        let before = output::normalized(s.drop_last());
        normalizing_adds_carriage_returns_only(s.drop_last());
        assert(before.push('\r').drop_last() =~= before);
        assert(before.push(s.last()).drop_last() =~= before);
        assert(before.push('\r').push('\n').drop_last() =~= before.push('\r'));
        assert(chars::keep(before.push('\r'), class) == chars::keep(before, class));
    }
}

/// The column stays inside a terminal: it never passes the place behind its
/// last column.
pub proof fn column_stays_in_terminal(s: Seq<char>, at: int, col: u16, width: u16)
    requires
        0 <= at,
        0 < width,
        col <= width,
    ensures
        output::column_after_text(s, at, col, Some(width as usize)) <= width,
    decreases s.len() - at,
{
    if at < s.len() {
        if s[at] == ESC {
            strip_ansi::escape_end_bounds(s, at + 1);
            column_stays_in_terminal(s, strip_ansi::escape_end(s, at + 1), col, width);
        } else {
            let next = output::column_after_char(col, s[at], Some(width as usize));
            assert(next <= width);
            column_stays_in_terminal(s, at + 1, next, width);
        }
    }
}

/// Printable ASCII text moves the column by its length where no width is
/// known, up to the last column that there is.
pub proof fn ascii_moves_the_column_by_its_length(s: Seq<char>, at: int, col: u16)
    requires
        0 <= at <= s.len(),
        forall|i: int|
            0 <= i < s.len() ==> chars::printable_ascii(#[trigger] s[i]) && display::char_width(s[i])
                == Some(1usize),
    ensures
        output::column_after_text(s, at, col, None) == if col + s.len() - at > u16::MAX {
            u16::MAX as int
        } else {
            col + s.len() - at
        },
    decreases s.len() - at,
{
    if at < s.len() {
        assert(chars::printable_ascii(s[at]));
        ascii_moves_the_column_by_its_length(
            s,
            at + 1,
            output::column_after_char(col, s[at], None),
        );
    }
}

/// Text that is printed piece by piece ends at the column where it ends when
/// it is printed at once, as long as no escape sequence is cut in two.
pub proof fn columns_add_up(
    a: Seq<char>,
    b: Seq<char>,
    at: int,
    col: u16,
    terminal_width: Option<usize>,
)
    requires
        0 <= at <= a.len(),
        strip_ansi::complete_from(a, at),
    ensures
        output::column_after_text(a + b, at, col, terminal_width) == output::column_after_text(
            b,
            0,
            output::column_after_text(a, at, col, terminal_width),
            terminal_width,
        ),
    decreases a.len() - at,
{
    if at < a.len() {
        assert((a + b)[at] == a[at]);
        if a[at] == ESC {
            strip_ansi::escape_end_bounds(a, at + 1);
            strip_ansi::escape_end_does_not_look_ahead(a, b, at + 1);
            columns_add_up(a, b, strip_ansi::escape_end(a, at + 1), col, terminal_width);
        } else {
            columns_add_up(
                a,
                b,
                at + 1,
                output::column_after_char(col, a[at], terminal_width),
                terminal_width,
            );
        }
    } else {
        columns_do_not_look_back(a, b, 0, col, terminal_width);
    }
}

/// A text without escape characters cuts off no escape sequence.
proof fn plain_text_is_complete(s: Seq<char>, at: int)
    requires
        0 <= at <= s.len(),
        forall|i: int| 0 <= i < s.len() ==> s[i] != ESC,
    ensures
        strip_ansi::complete_from(s, at),
    decreases s.len() - at,
{
    if at < s.len() {
        plain_text_is_complete(s, at + 1);
    }
}

/// What stands before a text has no part in how the text moves the column.
proof fn columns_do_not_look_back(
    p: Seq<char>,
    s: Seq<char>,
    at: int,
    col: u16,
    terminal_width: Option<usize>,
)
    requires
        0 <= at <= s.len(),
    ensures
        output::column_after_text(p + s, p.len() + at, col, terminal_width)
            == output::column_after_text(s, at, col, terminal_width),
    decreases s.len() - at,
{
    if at < s.len() {
        assert((p + s)[p.len() + at] == s[at]);
        if s[at] == ESC {
            strip_ansi::escape_end_bounds(s, at + 1);
            strip_ansi::escape_end_does_not_look_back(p, s, at + 1);
            columns_do_not_look_back(
                p,
                s,
                strip_ansi::escape_end(s, at + 1),
                col,
                terminal_width,
            );
        } else {
            columns_do_not_look_back(
                p,
                s,
                at + 1,
                output::column_after_char(col, s[at], terminal_width),
                terminal_width,
            );
        }
    }
}

/// The column counted from a text without escape sequences is the column of
/// what is written for it: the carriage returns that normalization adds do not
/// move it.
pub proof fn normalizing_keeps_the_column(s: Seq<char>, col: u16, terminal_width: Option<usize>)
    requires
        forall|i: int| 0 <= i < s.len() ==> s[i] != ESC,
    ensures
        output::column_after_text(output::normalized(s), 0, col, terminal_width)
            == output::column_after_text(s, 0, col, terminal_width),
        forall|i: int| 0 <= i < output::normalized(s).len() ==> output::normalized(s)[i] != ESC,
    decreases s.len(),
{
    if s.len() > 0 {
        let t = s.drop_last();
        let before = output::normalized(t);
        normalizing_keeps_the_column(t, col, terminal_width);
        let mid = output::column_after_text(t, 0, col, terminal_width);
        let last = seq![s.last()];
        assert(t + last =~= s);
        plain_text_is_complete(t, 0);
        plain_text_is_complete(before, 0);
        columns_add_up(t, last, 0, col, terminal_width);
        if output::bare_line_feed(s, s.len() - 1) {
            let pair = seq!['\r', '\n'];
            assert(before.push('\r').push('\n') =~= before + pair);
            columns_add_up(before, pair, 0, col, terminal_width);
            assert(output::column_after_text(pair, 0, mid, terminal_width) == 0) by {
                reveal_with_fuel(output::column_after_text, 3);
            }
            assert(output::column_after_text(last, 0, mid, terminal_width) == 0) by {
                reveal_with_fuel(output::column_after_text, 2);
            }
        } else {
            assert(before.push(s.last()) =~= before + last);
            columns_add_up(before, last, 0, col, terminal_width);
        }
    }
}

/// The column that output goes on at is inside the terminal.
pub proof fn the_column_to_go_on_at_is_inside(col: u16, terminal_width: Option<u16>)
    ensures
        output::next_resume(col, terminal_width) matches Some(next) ==> next == col && next > 0 && (
        terminal_width matches Some(width) ==> next < width),
{
}

/// Control sequences and clipboard texts leave the display alone: they are
/// written as they are, and nothing else is done.
pub proof fn invisible_output_leaves_the_display_alone<A>(
    messages: Seq<MessageView<A>>,
    appended_newline: Option<u16>,
    terminal_width: Option<u16>,
)
    requires
        !output::any_visible(messages),
    ensures
        output::planned(messages, appended_newline, terminal_width) == messages.map_values(
            |m: MessageView<A>| output::written(m),
        ),
{
    assert(output::planned(messages, appended_newline, terminal_width) =~= messages.map_values(
        |m: MessageView<A>| output::written(m),
    ));
}

/// Every message is written once, in the order in which it was queued, behind
/// whatever clears the display.
pub proof fn messages_are_written_in_order<A>(
    messages: Seq<MessageView<A>>,
    appended_newline: Option<u16>,
    terminal_width: Option<u16>,
    i: int,
)
    requires
        0 <= i < messages.len(),
    ensures
        ({
            let before = output::opening::<A>(output::any_visible(messages), appended_newline);
            output::planned(messages, appended_newline, terminal_width)[before.len() + i]
                == output::written(messages[i])
        }),
{
}

/// A line that was left unfinished at some column is gone on with at that
/// column: the display is cleared first, then the cursor is put there.
pub proof fn unfinished_lines_are_gone_on_with<A>(
    messages: Seq<MessageView<A>>,
    col: u16,
    terminal_width: Option<u16>,
)
    requires
        output::any_visible(messages),
    ensures
        ({
            let plan = output::planned(messages, Some(col), terminal_width);
            plan[0] == ActionView::<A>::ClearDisplay && plan[1] == ActionView::<A>::Resume(col)
                && plan[2] == ActionView::<A>::FlushDisplay
        }),
{
}

/// Whether a message is a control sequence that a given sender waits for.
pub open spec fn waits_for<A>(sender: A, message: MessageView<A>) -> bool {
    message matches MessageView::StdoutControlAcknowledged(_, s) && s == sender
}

/// Whether an action hands a given sender its outcome.
pub open spec fn answers<A>(sender: A, action: ActionView<A>) -> bool {
    action matches ActionView::WriteControlAcknowledged(_, s) && s == sender
}

/// How many of a list of actions hand a given sender its outcome.
pub open spec fn answers_to<A>(sender: A, actions: Seq<ActionView<A>>) -> nat
    decreases actions.len(),
{
    if actions.len() == 0 {
        0
    } else {
        answers_to(sender, actions.drop_last()) + if answers(sender, actions.last()) {
            1nat
        } else {
            0
        }
    }
}

/// Whether a sender waits for none of a list of messages.
pub open spec fn is_idle<A>(sender: A, messages: Seq<MessageView<A>>) -> bool {
    forall|i: int| 0 <= i < messages.len() ==> !waits_for(sender, #[trigger] messages[i])
}

/// Whether an event is not of a sender.
pub open spec fn is_of_others<A>(sender: A, event: OutputEvent<A>) -> bool {
    match event {
        OutputEvent::Queue(message) => !waits_for(sender, message),
        OutputEvent::Acknowledge(_, s) => s != sender,
        _ => true,
    }
}

/// Whether none of a list of events is of a sender.
pub open spec fn all_of_others<A>(sender: A, events: Seq<OutputEvent<A>>) -> bool {
    forall|i: int| 0 <= i < events.len() ==> is_of_others(sender, #[trigger] events[i])
}

/// Whether an event writes the output to a terminal.
pub open spec fn writes<A>(event: OutputEvent<A>) -> bool {
    event matches OutputEvent::Write(has_terminal, _) && has_terminal
}

/// Whether events write the output to a terminal before its owner goes.
pub open spec fn written_in_time<A>(events: Seq<OutputEvent<A>>) -> bool {
    exists|i: int|
        0 <= i < events.len() && writes(#[trigger] events[i]) && forall|j: int|
            0 <= j < i ==> #[trigger] events[j] !is Close
}

/// Whether events leave queued output where it is: it is neither written, nor
/// does its owner go.
pub open spec fn left_queued<A>(events: Seq<OutputEvent<A>>) -> bool {
    forall|i: int|
        0 <= i < events.len() ==> !writes(#[trigger] events[i]) && events[i] !is Close
}

/// The answers in two lists of actions add up.
proof fn answers_add_up<A>(sender: A, a: Seq<ActionView<A>>, b: Seq<ActionView<A>>)
    ensures
        answers_to(sender, a + b) == answers_to(sender, a) + answers_to(sender, b),
    decreases b.len(),
{
    if b.len() == 0 {
        assert(a + b =~= a);
    } else {
        answers_add_up(sender, a, b.drop_last());
        assert((a + b).drop_last() =~= a + b.drop_last());
    }
}

/// What is written for messages answers each sender that waits, and nobody
/// else.
proof fn written_answers<A>(sender: A, messages: Seq<MessageView<A>>)
    ensures
        is_idle(sender, messages) ==> answers_to(
            sender,
            messages.map_values(|m: MessageView<A>| output::written(m)),
        ) == 0,
    decreases messages.len(),
{
    if messages.len() > 0 && is_idle(sender, messages) {
        let actions = messages.map_values(|m: MessageView<A>| output::written(m));
        let first = messages.drop_last();
        assert(is_idle(sender, first)) by {
            assert forall|i: int| 0 <= i < first.len() implies !waits_for(
                sender,
                #[trigger] first[i],
            ) by {
                assert(!waits_for(sender, messages[i]));
            }
        }
        written_answers(sender, first);
        assert(actions.drop_last() =~= first.map_values(
            |m: MessageView<A>| output::written(m),
        ));
        assert(!waits_for(sender, messages[messages.len() - 1]));
    }
}

/// The answers in a plan are those in what is written for its messages.
proof fn a_plan_answers_its_messages<A>(
    sender: A,
    messages: Seq<MessageView<A>>,
    appended_newline: Option<u16>,
    terminal_width: Option<u16>,
)
    ensures
        answers_to(sender, output::planned(messages, appended_newline, terminal_width))
            == answers_to(sender, messages.map_values(|m: MessageView<A>| output::written(m))),
{
    let visible = output::any_visible(messages);
    let col = output::column_after_messages(
        messages,
        output::resume_column(appended_newline),
        output::width_columns(terminal_width),
    );
    let before = output::opening::<A>(visible, appended_newline);
    let actions = messages.map_values(|m: MessageView<A>| output::written(m));
    let after = output::closing::<A>(visible, col);
    reveal_with_fuel(answers_to, 4);
    assert(answers_to(sender, before) == 0);
    assert(answers_to(sender, after) == 0);
    answers_add_up(sender, before, actions);
    answers_add_up(sender, before + actions, after);
}

/// A sender that waits for nothing gets no answer from what others do.
pub proof fn idle_senders_get_no_answer<A>(
    sender: A,
    state: OutputView<A>,
    events: Seq<OutputEvent<A>>,
)
    requires
        is_idle(sender, state.messages),
        all_of_others(sender, events),
    ensures
        answers_to(sender, state.plan_all(events)) == 0,
        is_idle(sender, state.after_all(events).messages),
    decreases events.len(),
{
    if events.len() > 0 {
        let first = events.drop_last();
        let event = events.last();
        assert(all_of_others(sender, first)) by {
            assert forall|i: int| 0 <= i < first.len() implies is_of_others(
                sender,
                #[trigger] first[i],
            ) by {
                assert(is_of_others(sender, events[i]));
            }
        }
        idle_senders_get_no_answer(sender, state, first);
        assert(is_of_others(sender, events[events.len() - 1]));
        let before = state.after_all(first);
        answers_add_up(sender, state.plan_all(first), before.plan(event));
        written_answers(sender, before.messages);
        if let OutputEvent::Write(_, terminal_width) = event {
            a_plan_answers_its_messages(
                sender,
                before.messages,
                before.appended_newline,
                terminal_width,
            );
        }
    }
}

/// Whether a sender waits for exactly one message, at place `at`.
spec fn waits_once<A>(sender: A, messages: Seq<MessageView<A>>, at: int) -> bool {
    &&& 0 <= at < messages.len()
    &&& waits_for(sender, messages[at])
    &&& is_idle(sender, messages.take(at))
    &&& is_idle(sender, messages.skip(at + 1))
}

/// What is written for messages answers a sender once that waits once.
proof fn written_answers_once<A>(sender: A, messages: Seq<MessageView<A>>, at: int)
    requires
        waits_once(sender, messages, at),
    ensures
        answers_to(sender, messages.map_values(|m: MessageView<A>| output::written(m))) == 1,
{
    let before = messages.take(at).map_values(|m: MessageView<A>| output::written(m));
    let own = seq![output::written(messages[at])];
    let after = messages.skip(at + 1).map_values(|m: MessageView<A>| output::written(m));
    let actions = messages.map_values(|m: MessageView<A>| output::written(m));
    written_answers(sender, messages.take(at));
    written_answers(sender, messages.skip(at + 1));
    assert(own.drop_last() =~= Seq::empty());
    reveal_with_fuel(answers_to, 2);
    assert(answers_to(sender, own) == 1);
    answers_add_up(sender, before, own);
    answers_add_up(sender, before + own, after);
    assert(before + own + after =~= actions);
}

/// Where a control sequence comes to an open output, exactly one message is
/// queued for it, at the end, and it is not seen on the terminal. A closed
/// output stays as it is.
pub proof fn a_waiting_sender_queues_one_message<A>(
    state: OutputView<A>,
    sequence: Seq<char>,
    sender: A,
)
    ensures
        ({
            let after = state.after(OutputEvent::Acknowledge(sequence, sender));
            let message = MessageView::StdoutControlAcknowledged(sequence, sender);
            &&& !output::is_visible(message)
            &&& !state.closed ==> after == (OutputView {
                messages: state.messages.push(message),
                ..state
            })
            &&& state.closed ==> after == state
        }),
{
}

/// A sender whose control sequence came to an open output gets its answer
/// once if the output is written before its owner goes, and never otherwise,
/// whatever others do.
pub proof fn waiting_senders_are_answered_once<A>(
    state: OutputView<A>,
    sequence: Seq<char>,
    sender: A,
    events: Seq<OutputEvent<A>>,
)
    requires
        !state.closed,
        is_idle(sender, state.messages),
        all_of_others(sender, events),
    ensures
        ({
            let queued = state.after(OutputEvent::Acknowledge(sequence, sender));
            answers_to(sender, queued.plan_all(events)) == if written_in_time(events) {
                1nat
            } else {
                0
            }
        }),
{
    let queued = state.after(OutputEvent::Acknowledge(sequence, sender));
    let at = state.messages.len() as int;
    assert(queued.messages.take(at) =~= state.messages);
    assert(queued.messages.skip(at + 1) =~= Seq::empty());
    assert(waits_once(sender, queued.messages, at));
    waiting_goes_on(queued, sender, at, events);
}

/// What becomes of a sender that waits once.
proof fn waiting_goes_on<A>(
    state: OutputView<A>,
    sender: A,
    at: int,
    events: Seq<OutputEvent<A>>,
)
    requires
        waits_once(sender, state.messages, at),
        all_of_others(sender, events),
    ensures
        answers_to(sender, state.plan_all(events)) == if written_in_time(events) {
            1nat
        } else {
            0
        },
        left_queued(events) ==> waits_once(sender, state.after_all(events).messages, at),
        !left_queued(events) ==> is_idle(sender, state.after_all(events).messages),
    decreases events.len(),
{
    if events.len() > 0 {
        let n = events.len() - 1;
        let first = events.drop_last();
        let event = events.last();
        assert forall|i: int| 0 <= i < first.len() implies is_of_others(
            sender,
            #[trigger] first[i],
        ) by {
            assert(is_of_others(sender, events[i]));
        }
        waiting_goes_on(state, sender, at, first);
        let before = state.after_all(first);
        let after = state.after_all(events);
        answers_add_up(sender, state.plan_all(first), before.plan(event));
        assert(is_of_others(sender, events[n]));
        if let OutputEvent::Write(_, terminal_width) = event {
            a_plan_answers_its_messages(
                sender,
                before.messages,
                before.appended_newline,
                terminal_width,
            );
        }
        written_answers(sender, before.messages);
        if left_queued(first) {
            written_answers_once(sender, before.messages, at);
            assert forall|i: int| 0 <= i < n implies !writes(#[trigger] events[i]) && events[i]
                !is Close by {
                assert(!writes(first[i]) && first[i] !is Close);
            }
            assert(!written_in_time(first));
            if writes(event) {
                assert(writes(events[n]));
                assert(written_in_time(events));
            } else {
                assert(!written_in_time(events)) by {
                    assert forall|i: int| 0 <= i < events.len() implies !writes(
                        #[trigger] events[i],
                    ) by {}
                }
                if event !is Close {
                    assert(left_queued(events));
                    assert(after.messages.take(at) =~= before.messages.take(at));
                    if after.messages.len() > before.messages.len() {
                        let m = after.messages.last();
                        assert(after.messages.skip(at + 1) =~= before.messages.skip(at + 1).push(m));
                    }
                }
            }
            if writes(event) || event is Close {
                assert(!left_queued(events)) by {
                    assert(writes(events[n]) || events[n] is Close);
                }
            }
        } else {
            let i = choose|i: int|
                0 <= i < first.len() && !(!writes(#[trigger] first[i]) && first[i] !is Close);
            assert(events[i] == first[i]);
            assert(!left_queued(events));
            settled_stays_settled(events);
        }
    }
}

/// Once output was written or its owner went, what comes later does not
/// matter to what was queued.
proof fn settled_stays_settled<A>(events: Seq<OutputEvent<A>>)
    requires
        events.len() > 0,
        !left_queued(events.drop_last()),
    ensures
        written_in_time(events) == written_in_time(events.drop_last()),
{
    let first = events.drop_last();
    let n = first.len() as int;
    if written_in_time(first) {
        let i = choose|i: int|
            0 <= i < first.len() && writes(#[trigger] first[i]) && forall|j: int|
                0 <= j < i ==> #[trigger] first[j] !is Close;
        assert(events[i] == first[i]);
        assert forall|j: int| 0 <= j < i implies #[trigger] events[j] !is Close by {
            assert(first[j] !is Close);
        }
    }
    if written_in_time(events) {
        let i = choose|i: int|
            0 <= i < events.len() && writes(#[trigger] events[i]) && forall|j: int|
                0 <= j < i ==> #[trigger] events[j] !is Close;
        let k = choose|k: int|
            0 <= k < first.len() && !(!writes(#[trigger] first[k]) && first[k] !is Close);
        let at = if i < n {
            i
        } else {
            k
        };
        assert(events[k] == first[k]);
        assert(first[at] == events[at]);
        assert(writes(first[at]));
        assert forall|j: int| 0 <= j < at implies #[trigger] first[j] !is Close by {
            assert(events[j] !is Close);
        }
    }
}

/// Whether a sender waits for a given control sequence only.
pub open spec fn waits_only_for<A>(
    sender: A,
    sequence: Seq<char>,
    messages: Seq<MessageView<A>>,
) -> bool {
    forall|i: int|
        0 <= i < messages.len() && waits_for(sender, #[trigger] messages[i]) ==> messages[i]
            == MessageView::StdoutControlAcknowledged(sequence, sender)
}

/// Whether a sender is answered for a given control sequence only.
pub open spec fn answered_only_for<A>(
    sender: A,
    sequence: Seq<char>,
    actions: Seq<ActionView<A>>,
) -> bool {
    forall|i: int|
        0 <= i < actions.len() && answers(sender, #[trigger] actions[i]) ==> actions[i]
            == ActionView::WriteControlAcknowledged(sequence, sender)
}

/// A sender that waits for one control sequence is answered for no other: what
/// is written for it is its sequence.
pub proof fn senders_are_answered_for_their_sequence<A>(
    state: OutputView<A>,
    sequence: Seq<char>,
    sender: A,
    events: Seq<OutputEvent<A>>,
)
    requires
        waits_only_for(sender, sequence, state.messages),
        all_of_others(sender, events),
    ensures
        answered_only_for(sender, sequence, state.plan_all(events)),
        waits_only_for(sender, sequence, state.after_all(events).messages),
    decreases events.len(),
{
    if events.len() > 0 {
        let first = events.drop_last();
        let event = events.last();
        assert forall|i: int| 0 <= i < first.len() implies is_of_others(
            sender,
            #[trigger] first[i],
        ) by {
            assert(is_of_others(sender, events[i]));
        }
        assert(is_of_others(sender, events[events.len() - 1]));
        senders_are_answered_for_their_sequence(state, sequence, sender, first);
        let before = state.after_all(first);
        let plan = before.plan(event);
        assert(answered_only_for(sender, sequence, plan)) by {
            let n = before.messages.len();
            let opening = output::opening::<A>(
                output::any_visible(before.messages),
                before.appended_newline,
            );
            assert forall|i: int| 0 <= i < plan.len() && answers(
                sender,
                #[trigger] plan[i],
            ) implies plan[i] == ActionView::WriteControlAcknowledged(sequence, sender) by {
                let k = i - opening.len();
                assert(0 <= k < n);
                assert(plan[i] == output::written(before.messages[k]));
                assert(waits_for(sender, before.messages[k]));
            }
        }
    }
}

/// Whether nobody waits for any of a list of messages.
pub open spec fn nobody_waits<A>(messages: Seq<MessageView<A>>) -> bool {
    forall|i: int|
        0 <= i < messages.len() ==> #[trigger] messages[i] !is StdoutControlAcknowledged
}

/// After its owner went, an output stays closed whatever happens, sends every
/// later sender back, and nobody waits for what is queued. Messages that
/// nobody waits for may still come.
pub proof fn closed_output_sends_everybody_back<A>(
    state: OutputView<A>,
    events: Seq<OutputEvent<A>>,
    sequence: Seq<char>,
    sender: A,
)
    requires
        forall|i: int|
            0 <= i < events.len() ==> (#[trigger] events[i] matches OutputEvent::Queue(m) ==> m
                !is StdoutControlAcknowledged),
    ensures
        ({
            let after = state.after(OutputEvent::Close).after_all(events);
            &&& after.closed
            &&& nobody_waits(after.messages)
            &&& after.after(OutputEvent::Acknowledge(sequence, sender)) == after
        }),
    decreases events.len(),
{
    if events.len() > 0 {
        let first = events.drop_last();
        assert forall|i: int| 0 <= i < first.len() implies (#[trigger] first[i] matches
            OutputEvent::Queue(m) ==> m !is StdoutControlAcknowledged) by {
            assert(events[i] == first[i]);
        }
        closed_output_sends_everybody_back(state, first, sequence, sender);
        let event = events[events.len() - 1];
    }
}

/// What a message shows on the terminal: a line with its end, or a text that
/// ends no line. The clipboard and control sequences show nothing.
pub open spec fn shown<A>(message: MessageView<A>) -> Seq<char> {
    match message {
        MessageView::Stdout(text) => text + seq!['\r', '\n'],
        MessageView::Stderr(text) => text + seq!['\r', '\n'],
        MessageView::StdoutNoNewline(text) => text,
        MessageView::StderrNoNewline(text) => text,
        MessageView::StdoutClipboard(..) => Seq::empty(),
        MessageView::StdoutControl(_) => Seq::empty(),
        MessageView::StdoutControlAcknowledged(..) => Seq::empty(),
    }
}

/// What messages show on the terminal, one after the other.
pub open spec fn all_shown<A>(messages: Seq<MessageView<A>>) -> Seq<char>
    decreases messages.len(),
{
    if messages.len() == 0 {
        Seq::empty()
    } else {
        all_shown(messages.drop_last()) + shown(messages.last())
    }
}

/// The text of a message.
pub open spec fn text_of<A>(message: MessageView<A>) -> Seq<char> {
    match message {
        MessageView::Stdout(text) => text,
        MessageView::Stderr(text) => text,
        MessageView::StdoutNoNewline(text) => text,
        MessageView::StderrNoNewline(text) => text,
        MessageView::StdoutClipboard(text, _) => text,
        MessageView::StdoutControl(text) => text,
        MessageView::StdoutControlAcknowledged(text, _) => text,
    }
}

/// Whether no message that is seen cuts off an escape sequence.
pub open spec fn all_complete<A>(messages: Seq<MessageView<A>>) -> bool {
    forall|i: int|
        0 <= i < messages.len() && output::is_visible(#[trigger] messages[i])
            ==> strip_ansi::complete_from(text_of(messages[i]), 0)
}

/// A line end puts the column at the margin.
proof fn a_line_end_goes_to_the_margin(
    text: Seq<char>,
    col: u16,
    terminal_width: Option<usize>,
)
    requires
        strip_ansi::complete_from(text, 0),
    ensures
        output::column_after_text(text + seq!['\r', '\n'], 0, col, terminal_width) == 0,
        strip_ansi::complete_from(text + seq!['\r', '\n'], 0),
{
    let pair = seq!['\r', '\n'];
    let mid = output::column_after_text(text, 0, col, terminal_width);
    columns_add_up(text, pair, 0, col, terminal_width);
    assert(output::column_after_text(pair, 0, mid, terminal_width) == 0) by {
        reveal_with_fuel(output::column_after_text, 3);
    }
    plain_text_is_complete(pair, 0);
    complete_texts_are_complete_together(text, pair, 0);
}

/// Texts that cut off no escape sequence cut off none together.
proof fn complete_texts_are_complete_together(a: Seq<char>, b: Seq<char>, at: int)
    requires
        0 <= at <= a.len(),
        strip_ansi::complete_from(a, at),
        strip_ansi::complete_from(b, 0),
    ensures
        strip_ansi::complete_from(a + b, at),
    decreases a.len() - at,
{
    if at < a.len() {
        assert((a + b)[at] == a[at]);
        if a[at] == ESC {
            strip_ansi::escape_end_bounds(a, at + 1);
            strip_ansi::escape_end_does_not_look_ahead(a, b, at + 1);
            strip_ansi::closed_sequences_stay_closed(Seq::empty(), a, b, at + 1);
            assert(Seq::<char>::empty() + a + b =~= a + b);
            complete_texts_are_complete_together(a, b, strip_ansi::escape_end(a, at + 1));
        } else {
            complete_texts_are_complete_together(a, b, at + 1);
        }
    } else {
        completeness_does_not_look_back(a, b, 0);
    }
}

/// What stands before a text has no part in whether it cuts off an escape
/// sequence.
proof fn completeness_does_not_look_back(p: Seq<char>, s: Seq<char>, at: int)
    requires
        0 <= at <= s.len(),
        strip_ansi::complete_from(s, at),
    ensures
        strip_ansi::complete_from(p + s, p.len() + at),
    decreases s.len() - at,
{
    if at < s.len() {
        assert((p + s)[p.len() + at] == s[at]);
        if s[at] == ESC {
            strip_ansi::escape_end_bounds(s, at + 1);
            strip_ansi::escape_end_does_not_look_back(p, s, at + 1);
            strip_ansi::closed_sequences_stay_closed(p, s, Seq::empty(), at + 1);
            assert(p + s + Seq::<char>::empty() =~= p + s);
            completeness_does_not_look_back(p, s, strip_ansi::escape_end(s, at + 1));
        } else {
            completeness_does_not_look_back(p, s, at + 1);
        }
    }
}

/// The column after messages is the column after what they show, one behind
/// the other on one terminal: standard output and standard error move the same
/// cursor, a line ends at the margin, and what is not seen moves nothing.
pub proof fn messages_move_the_column_as_their_text_does<A>(
    messages: Seq<MessageView<A>>,
    col: u16,
    terminal_width: Option<usize>,
)
    requires
        all_complete(messages),
    ensures
        output::column_after_messages(messages, col, terminal_width) == output::column_after_text(
            all_shown(messages),
            0,
            col,
            terminal_width,
        ),
        strip_ansi::complete_from(all_shown(messages), 0),
    decreases messages.len(),
{
    if messages.len() > 0 {
        let n = messages.len() - 1;
        let first = messages.drop_last();
        let last = messages.last();
        assert forall|i: int| 0 <= i < first.len() && output::is_visible(
            #[trigger] first[i],
        ) implies strip_ansi::complete_from(text_of(first[i]), 0) by {
            assert(messages[i] == first[i]);
        }
        messages_move_the_column_as_their_text_does(first, col, terminal_width);
        let mid = output::column_after_messages(first, col, terminal_width);
        assert(messages[n] == last);
        columns_add_up(all_shown(first), shown(last), 0, col, terminal_width);
        if output::is_visible(last) {
            a_line_end_goes_to_the_margin(text_of(last), mid, terminal_width);
        }
        complete_texts_are_complete_together(all_shown(first), shown(last), 0);
    }
}

/// Each message is written to the stream that it is for: lines with their end
/// and unfinished texts alike, with every line feed made a line break of the
/// terminal. The clipboard and control sequences are handed on as they are.
pub proof fn messages_go_to_their_stream<A>(
    text: Seq<char>,
    multiplexer: MultiplexerPassthrough,
    sender: A,
)
    ensures
        ({
            let line = output::normalized(text + seq!['\r', '\n']);
            let unfinished = output::normalized(text);
            &&& output::written(MessageView::<A>::Stdout(text)) == ActionView::<A>::WriteStdout(line)
            &&& output::written(MessageView::<A>::Stderr(text)) == ActionView::<A>::WriteStderr(line)
            &&& output::written(MessageView::<A>::StdoutNoNewline(text)) == ActionView::<
                A,
            >::WriteStdout(unfinished)
            &&& output::written(MessageView::<A>::StderrNoNewline(text)) == ActionView::<
                A,
            >::WriteStderr(unfinished)
            &&& output::written(MessageView::<A>::StdoutClipboard(text, multiplexer))
                == ActionView::<A>::SetClipboard(text, multiplexer)
            &&& output::written(MessageView::<A>::StdoutControl(text)) == ActionView::<
                A,
            >::WriteControl(text)
            &&& output::written(MessageView::<A>::StdoutControlAcknowledged(text, sender))
                == ActionView::<A>::WriteControlAcknowledged(text, sender)
        }),
{
    reveal_strlit("\r\n");
    let pair = seq!['\r', '\n'];
    let with_return = text.push('\r');
    let line = text + pair;
    assert("\r\n"@ =~= pair);
    assert(with_return.drop_last() =~= text);
    assert(line.drop_last() =~= with_return);
    assert(output::normalized(line) == output::normalized(with_return).push('\n'));
    assert(output::normalized(with_return) == output::normalized(text).push('\r'));
    assert(output::normalized(text) + pair =~= output::normalized(line));
}

/// A plan for visible output clears the display first and goes on behind an
/// unfinished line if there is one. Then come the messages, and at the end
/// both streams are flushed. A line that is left unfinished then is ended, so
/// that the display stands on a row of its own.
pub proof fn visible_output_stands_above_the_display<A>(
    messages: Seq<MessageView<A>>,
    appended_newline: Option<u16>,
    terminal_width: Option<u16>,
)
    requires
        exists|i: int| 0 <= i < messages.len() && output::is_visible(#[trigger] messages[i]),
    ensures
        ({
            let plan = output::planned(messages, appended_newline, terminal_width);
            let n = messages.len() as int;
            let first: int = if appended_newline is Some {
                3
            } else {
                2
            };
            let width = match terminal_width {
                Some(width) => Some(width as usize),
                None => None,
            };
            let col = output::column_after_messages(
                messages,
                match appended_newline {
                    Some(col) => col,
                    None => 0u16,
                },
                width,
            );
            &&& plan[0] == ActionView::<A>::ClearDisplay
            &&& appended_newline matches Some(col) ==> plan[1] == ActionView::<A>::Resume(col)
            &&& plan[first - 1] == ActionView::<A>::FlushDisplay
            &&& forall|i: int|
                0 <= i < n ==> plan[first + i] == output::written(#[trigger] messages[i])
            &&& plan[first + n] == ActionView::<A>::FlushStdout
            &&& plan[first + n + 1] == ActionView::<A>::FlushStderr
            &&& col == 0 ==> plan.len() == first + n + 2
            &&& col > 0 ==> plan.len() == first + n + 3 && plan[first + n + 2] == ActionView::<
                A,
            >::WriteDisplay(seq!['\r', '\n'])
        }),
{
    reveal_strlit("\r\n");
    assert("\r\n"@ =~= seq!['\r', '\n']);
    assert(output::any_visible(messages));
}

/// Text and nothing else is seen: lines and unfinished texts of both streams.
pub proof fn only_text_is_seen<A>(message: MessageView<A>)
    ensures
        output::is_visible(message) <==> message is Stdout || message is StdoutNoNewline || message
            is Stderr || message is StderrNoNewline,
{
}

/// The column to go on at is that of an unfinished line that has not reached
/// the right margin, and of no other line.
pub proof fn only_unfinished_lines_are_gone_on_with(col: u16, terminal_width: Option<u16>)
    ensures
        output::next_resume(col, terminal_width) is Some <==> 0 < col && (terminal_width
            matches Some(width) ==> col < width),
{
}

/// Whatever is written, output goes on where it stopped: after visible output
/// the column to go on at is where the text shown since the last line began
/// ends, counted from where output went on before. Where nothing visible is
/// written it stays.
pub proof fn writing_remembers_where_it_stopped<A>(
    state: OutputView<A>,
    terminal_width: Option<u16>,
)
    requires
        state.messages.len() > 0,
        all_complete(state.messages),
    ensures
        ({
            let after = state.after(OutputEvent::Write(true, terminal_width));
            let begin = match state.appended_newline {
                Some(col) => col,
                None => 0u16,
            };
            let width = match terminal_width {
                Some(width) => Some(width as usize),
                None => None,
            };
            let col = output::column_after_text(all_shown(state.messages), 0, begin, width);
            let seen = exists|i: int|
                0 <= i < state.messages.len() && output::is_visible(#[trigger] state.messages[i]);
            &&& after.messages.len() == 0
            &&& after.closed == state.closed
            &&& !seen ==> after.appended_newline == state.appended_newline
            &&& seen && 0 < col && (terminal_width matches Some(w) ==> col < w)
                ==> after.appended_newline == Some(col)
            &&& seen && !(0 < col && (terminal_width matches Some(w) ==> col < w))
                ==> after.appended_newline is None
        }),
{
    messages_move_the_column_as_their_text_does(
        state.messages,
        output::resume_column(state.appended_newline),
        output::width_columns(terminal_width),
    );
}

/// A character that takes columns is printed where there is room: on the row
/// where the cursor stands if it is not behind the last column, else at the
/// front of the next row. It never moves the column by more or less than the
/// columns that it takes.
pub proof fn printing_moves_by_what_it_takes(col: u16, n: usize, width: u16)
    requires
        0 < n <= width,
        col <= width,
    ensures
        ({
            let next = output::column_after_printing(col, n, Some(width as usize));
            &&& col + n <= width ==> next == col + n
            &&& col == width ==> next == n
            &&& col < width < col + n ==> next == col + n - width
            &&& output::column_after_printing(col, 0, Some(width as usize)) == col
        }),
{
    if col < width < col + n {
        let rest = col + n - width;
        assert((col + n) as int % width as int == rest) by (nonlinear_arith)
            requires
                rest == col + n - width,
                0 < rest <= width,
                rest < width,
        ;
    }
}

/// Tabs go on to the next multiple of eight, a backspace goes back by one, a
/// carriage return and a line feed go to the margin, and other control
/// characters move nothing.
pub proof fn control_characters_move_the_column(col: u16, c: char)
    requires
        chars::control(c),
    ensures
        ({
            let next = output::column_after_char(col, c, None);
            &&& c == '\r' || c == '\n' ==> next == 0
            &&& c == '\t' && col < 0xfff8 ==> col < next <= col + 8 && next % 8 == 0
            &&& c == '\u{8}' ==> next == if col > 0 {
                col - 1
            } else {
                0
            }
            &&& c != '\r' && c != '\n' && c != '\t' && c != '\u{8}' ==> next == col
        }),
{
}

/// A terminal whose width is not known has no right margin: the column grows
/// by what is printed, to the largest that there is.
pub proof fn unknown_widths_have_no_margin(col: u16, n: usize)
    ensures
        ({
            let next = output::column_after_printing(col, n, None) as int;
            &&& next == output::column_after_printing(col, n, Some(0usize))
            &&& col + n <= 0xffff ==> next == col + n
            &&& col + n > 0xffff ==> next == 0xffff
        }),
{
}

/// Whatever is printed, the column is the one that the printed columns lead to
/// row by row, and never behind the one after the last.
pub proof fn printing_goes_on_row_by_row(col: u16, n: usize, width: u16)
    requires
        0 < n,
        0 < width,
        n + width <= usize::MAX,
    ensures
        ({
            let next = output::column_after_printing(col, n, Some(width as usize)) as int;
            let start = if col >= width {
                0
            } else {
                col as int
            };
            &&& next <= width
            &&& next % (width as int) == (start + n) % (width as int)
        }),
{
    let start = if col >= width {
        0
    } else {
        col as int
    };
    let end = start + n;
    let w = width as int;
    vstd::arithmetic::div_mod::lemma_mod_bound(end, w);
    vstd::arithmetic::div_mod::lemma_mod_twice(end, w);
}

/// A tab goes to the next multiple of eight that is on its row.
pub proof fn tabs_stay_on_their_row(col: u16, width: u16)
    requires
        col + 8 <= width,
    ensures
        ({
            let next = output::column_after_char(col, '\t', Some(width as usize));
            col < next <= col + 8 && next % 8 == 0
        }),
{
}

/// A character that is no control character is printed with its own width. One
/// without a width moves nothing.
pub proof fn characters_are_printed_with_their_width(
    col: u16,
    c: char,
    terminal_width: Option<usize>,
)
    requires
        !chars::control(c),
    ensures
        display::char_width(c) is None ==> output::column_after_char(col, c, terminal_width) == col,
        display::char_width(c) matches Some(n) ==> output::column_after_char(col, c, terminal_width)
            == output::column_after_printing(col, n, terminal_width),
{
}

/// Escape sequences do not move the column: a text moves it as it does without
/// them.
pub proof fn escape_sequences_do_not_move_the_column(
    s: Seq<char>,
    at: int,
    col: u16,
    terminal_width: Option<usize>,
)
    requires
        0 <= at,
    ensures
        output::column_after_text(s, at, col, terminal_width) == output::column_after_text(
            strip_ansi::plain_from(s, at),
            0,
            col,
            terminal_width,
        ),
    decreases s.len() - at,
{
    if at < s.len() {
        if s[at] == ESC {
            strip_ansi::escape_end_bounds(s, at + 1);
            escape_sequences_do_not_move_the_column(
                s,
                strip_ansi::escape_end(s, at + 1),
                col,
                terminal_width,
            );
        } else {
            let next = output::column_after_char(col, s[at], terminal_width);
            let rest = strip_ansi::plain_from(s, at + 1);
            let all = seq![s[at]] + rest;
            escape_sequences_do_not_move_the_column(s, at + 1, next, terminal_width);
            columns_do_not_look_back(seq![s[at]], rest, 0, next, terminal_width);
            assert(all[0] == s[at]);
        }
    }
}

/// The lines of a text are normalized one by one: a line feed gets the carriage
/// return that it lacks, and what stands before and behind it is normalized
/// apart.
pub proof fn lines_are_normalized_one_by_one(a: Seq<char>, b: Seq<char>)
    requires
        a.len() > 0 ==> a.last() != '\r',
    ensures
        output::normalized(a + seq!['\n'] + b) == output::normalized(a) + seq!['\r', '\n']
            + output::normalized(b),
    decreases b.len(),
{
    let all = a + seq!['\n'] + b;
    if b.len() == 0 {
        assert(all =~= a.push('\n'));
        assert(all.drop_last() =~= a);
        assert(output::normalized(all) =~= output::normalized(a) + seq!['\r', '\n']
            + output::normalized(b));
    } else {
        let f = b.drop_last();
        lines_are_normalized_one_by_one(a, f);
        assert(all.drop_last() =~= a + seq!['\n'] + f);
        assert(all.last() == b.last());
        let n = all.len() - 1;
        assert(output::bare_line_feed(all, n) <==> output::bare_line_feed(b, b.len() - 1)) by {
            if b.len() > 1 {
                assert(all[n - 1] == b[b.len() - 2]);
            } else {
                assert(all[n - 1] == '\n');
            }
        }
        assert(output::normalized(all) =~= output::normalized(a) + seq!['\r', '\n']
            + output::normalized(b));
    }
}

/// An event changes nothing but what it is about: messages are queued behind
/// those that wait, output is written only where there is a terminal, and
/// output whose owner is gone takes no sequence that its sender would wait for.
pub proof fn events_keep_the_order<A>(
    state: OutputView<A>,
    message: MessageView<A>,
    sequence: Seq<char>,
    sender: A,
    width: Option<u16>,
)
    ensures
        ({
            let queued = state.after(OutputEvent::Queue(message));
            &&& queued.messages == state.messages.push(message)
            &&& queued.closed == state.closed
            &&& queued.appended_newline == state.appended_newline
        }),
        ({
            let asked = state.after(OutputEvent::Acknowledge(sequence, sender));
            &&& state.closed ==> asked == state
            &&& !state.closed ==> asked.messages == state.messages.push(
                MessageView::StdoutControlAcknowledged(sequence, sender),
            ) && asked.appended_newline == state.appended_newline && !asked.closed
        }),
        ({
            let kept = state.after(OutputEvent::Write(false, width));
            &&& kept == state
            &&& state.plan(OutputEvent::Write(false, width)).len() == 0
        }),
        ({
            let done = state.after(OutputEvent::Write(true, width));
            &&& done.messages.len() == 0
            &&& done.closed == state.closed
            &&& !output::any_visible(state.messages) ==> done.appended_newline
                == state.appended_newline
        }),
{
}

} // verus!
