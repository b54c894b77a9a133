//! The text of the lines the logging worker writes: one line per event.

use vstd::prelude::*;
use crate::signals::{LogEvent, LogLevel};
use crate::text::{decimal, push_char, push_decimal, push_str};

verus! {

pub open spec fn level_label(level: LogLevel) -> Seq<char> {
    match level {
        LogLevel::Debug => seq!['D', 'E', 'B', 'U', 'G'],
        LogLevel::Info => seq!['I', 'N', 'F', 'O'],
        LogLevel::Warning => seq!['W', 'A', 'R', 'N'],
        LogLevel::Error => seq!['E', 'R', 'R', 'O', 'R'],
    }
}

/// ` key=value` for each field, in order.
pub open spec fn fields_text(fields: Seq<(String, String)>) -> Seq<char>
    decreases fields.len(),
{
    if fields.len() == 0 {
        Seq::empty()
    } else {
        fields_text(fields.drop_last()) + seq![' '] + fields.last().0@ + seq!['='] + fields.last().1@
    }
}

/// `{timestamp_ms} [{LEVEL}] {module} {message}` followed by ` key=value` per field.
pub open spec fn log_line(event: LogEvent) -> Seq<char> {
    decimal(event.timestamp_ms as nat) + seq![' ', '['] + level_label(event.level) + seq![']', ' ']
        + event.module@ + seq![' '] + event.message@ + fields_text(event.fields@)
}

/// Appends the label of a log level.
fn push_level_label(out: &mut String, level: LogLevel)
    ensures
        final(out)@ == old(out)@ + level_label(level),
{
    match level {
        LogLevel::Debug => {
            push_char(out, 'D');
            push_char(out, 'E');
            push_char(out, 'B');
            push_char(out, 'U');
            push_char(out, 'G');
        },
        LogLevel::Info => {
            push_char(out, 'I');
            push_char(out, 'N');
            push_char(out, 'F');
            push_char(out, 'O');
        },
        LogLevel::Warning => {
            push_char(out, 'W');
            push_char(out, 'A');
            push_char(out, 'R');
            push_char(out, 'N');
        },
        LogLevel::Error => {
            push_char(out, 'E');
            push_char(out, 'R');
            push_char(out, 'R');
            push_char(out, 'O');
            push_char(out, 'R');
        },
    }
}

/// The line the logging worker writes for an event (without the newline).
pub fn format_log_line(event: &LogEvent) -> (line: String)
    ensures
        line@ == log_line(*event),
{
    let mut line = String::new();
    push_decimal(&mut line, event.timestamp_ms);
    push_char(&mut line, ' ');
    push_char(&mut line, '[');
    push_level_label(&mut line, event.level);
    push_char(&mut line, ']');
    push_char(&mut line, ' ');
    push_str(&mut line, event.module);
    push_char(&mut line, ' ');
    push_str(&mut line, event.message.as_str());
    let ghost head = line@;
    let n = event.fields.len();
    for i in 0..n
        invariant
            n == event.fields@.len(),
            line@ == head + fields_text(event.fields@.take(i as int)),
    {
        push_char(&mut line, ' ');
        push_str(&mut line, event.fields[i].0.as_str());
        push_char(&mut line, '=');
        push_str(&mut line, event.fields[i].1.as_str());
        assert(event.fields@.take(i + 1).drop_last() =~= event.fields@.take(i as int));
    }
    assert(event.fields@.take(n as int) =~= event.fields@);
    line
}

/// An event without fields is logged as its head alone:
/// `{timestamp_ms} [{LEVEL}] {module} {message}`.
pub proof fn lemma_log_line_head(event: LogEvent)
    requires
        event.fields@.len() == 0,
    ensures
        log_line(event) == decimal(event.timestamp_ms as nat) + seq![' ', '['] + level_label(
            event.level,
        ) + seq![']', ' '] + event.module@ + seq![' '] + event.message@,
{
    assert(fields_text(event.fields@) == Seq::<char>::empty());
    assert(log_line(event) =~= decimal(event.timestamp_ms as nat) + seq![' ', '['] + level_label(
        event.level,
    ) + seq![']', ' '] + event.module@ + seq![' '] + event.message@);
}

/// Adding a field to an event adds ` key=value` at the end of its line and
/// changes nothing else: every field is written, in order.
pub proof fn lemma_log_line_one_more_field(longer: LogEvent, shorter: LogEvent)
    requires
        longer.level == shorter.level,
        longer.module@ == shorter.module@,
        longer.message@ == shorter.message@,
        longer.timestamp_ms == shorter.timestamp_ms,
        longer.fields@.len() > 0,
        shorter.fields@ == longer.fields@.drop_last(),
    ensures
        log_line(longer) == log_line(shorter) + seq![' '] + longer.fields@.last().0@ + seq!['=']
            + longer.fields@.last().1@,
{
    let f = longer.fields@;
    assert(fields_text(f) == fields_text(f.drop_last()) + seq![' '] + f.last().0@ + seq!['=']
        + f.last().1@);
    assert(log_line(longer) =~= log_line(shorter) + seq![' '] + f.last().0@ + seq!['=']
        + f.last().1@);
}

} // verus!
