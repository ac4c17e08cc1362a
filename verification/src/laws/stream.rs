//! What the stream of updates is cut into and what is read from it, told by the
//! text that arrives.

use vstd::prelude::*;

use crate::delta::{after_delta, delta_fault, DeltaFault};
use crate::laws::names::{blank_text, padding_is_dropped, tight, trimming_removes_the_ends};
use crate::laws::{after_event, first_step};
use crate::signing::SignedDelta;
use crate::state::State;
use crate::text::{first_at, lemma_first_at, trimmed};
use crate::transport::{
    event_end, event_step, fields_from, next_wait, processed, run, update_of,
    with_line, Fields, INITIAL_RETRY_SECS, MAX_RETRY_SECS, SSE_RECONNECT_SECS,
};

verus! {

// ---------------------------------------------------------------------------
// Cutting into events
// ---------------------------------------------------------------------------

/// Whether two line feeds follow each other at position `i`.
pub open spec fn gap_at(s: Seq<char>, i: int) -> bool {
    0 <= i && i + 1 < s.len() && s[i] == '\n' && s[i + 1] == '\n'
}

/// An event ends at the first empty line: where two line feeds follow each other
/// for the first time. Without such a place there is no complete event.
pub proof fn event_ends_at_the_first_gap(s: Seq<char>, i: int)
    requires
        0 <= i <= s.len(),
    ensures
        event_end(s, i) < s.len() ==> gap_at(s, event_end(s, i)) && i <= event_end(s, i),
        forall|j: int| i <= j < event_end(s, i) ==> !#[trigger] gap_at(s, j),
        event_end(s, i) <= s.len(),
        event_end(s, i) == s.len() ==> forall|j: int| i <= j ==> !#[trigger] gap_at(s, j),
    decreases s.len() - i,
{
    if i + 1 < s.len() && !(s[i] == '\n' && s[i + 1] == '\n') {
        event_ends_at_the_first_gap(s, i + 1);
    }
}

/// The text before the first empty line is the event, and the text behind it is
/// what is left.
pub proof fn stream_is_events_and_gaps(event: Seq<char>, rest: Seq<char>)
    requires
        forall|j: int| !#[trigger] gap_at(event, j),
        event.len() > 0 ==> event[event.len() - 1] != '\n',
    ensures
        ({
            let s = event + seq!['\n', '\n'] + rest;
            &&& event_end(s, 0) == event.len()
            &&& s.take(event_end(s, 0)) == event
            &&& s.skip(event_end(s, 0) + 2) == rest
        }),
{
    let s = event + seq!['\n', '\n'] + rest;
    let n = event.len() as int;
    event_ends_at_the_first_gap(s, 0);
    assert(s[n] == '\n' && s[n + 1] == '\n');
    assert(gap_at(s, n));
    let e = event_end(s, 0);
    if e < n {
        assert(gap_at(s, e));
        assert(s[e] == event[e]);
        if e + 1 < n {
            assert(s[e + 1] == event[e + 1]);
            assert(gap_at(event, e));
        } else {
            assert(e == n - 1);
        }
    }
    assert(e == n);
    assert(s.take(e) =~= event);
    assert(s.skip(e + 2) =~= rest);
}

// ---------------------------------------------------------------------------
// Reading an event
// ---------------------------------------------------------------------------

/// Lines with a line feed between each two.
pub open spec fn joined(lines: Seq<Seq<char>>) -> Seq<char>
    decreases lines.len(),
{
    if lines.len() == 0 {
        Seq::empty()
    } else if lines.len() == 1 {
        lines[0]
    } else {
        lines[0] + seq!['\n'] + joined(lines.skip(1))
    }
}

/// The fields once all the lines were read.
spec fn read_lines(lines: Seq<Seq<char>>, f: Fields) -> Fields
    decreases lines.len(),
{
    if lines.len() == 0 {
        f
    } else {
        read_lines(lines.skip(1), with_line(f, lines[0]))
    }
}

proof fn lemma_fields(before: Seq<char>, lines: Seq<Seq<char>>, f: Fields)
    requires
        forall|i: int| 0 <= i < lines.len() ==> !(#[trigger] lines[i]).contains('\n'),
    ensures
        fields_from(before + joined(lines), before.len() as int, f) == read_lines(lines, f),
    decreases lines.len(),
{
    let s = before + joined(lines);
    let at = before.len() as int;
    if lines.len() == 0 {
    } else {
        let line = lines[0];
        assert(!lines[0].contains('\n'));
        if at >= s.len() {
            // The lines are empty, and there is only one: two have a line feed.
            assert(lines.len() == 1 && line.len() == 0);
            lemma_empty_line(f, line);
            assert(lines.skip(1) =~= Seq::empty());
            assert(read_lines(lines, f) == read_lines(lines.skip(1), with_line(f, line)));
        } else {
            lemma_first_at(s, '\n', at);
            let end = first_at(s, '\n', at);
            let stop = at + line.len();
            if end < stop {
                assert(line[end - at] == '\n');
            }
            if lines.len() == 1 {
                assert(end == stop && end == s.len());
                assert(s.subrange(at, end) =~= line);
                assert(lines.skip(1) =~= Seq::empty());
                assert(read_lines(lines.skip(1), with_line(f, line)) == with_line(f, line));
            } else {
                assert(s[stop] == '\n');
                assert(end == stop);
                assert(s.subrange(at, end) =~= line);
                let next = before + line + seq!['\n'];
                assert(next + joined(lines.skip(1)) =~= s);
                assert forall|i: int| 0 <= i < lines.skip(1).len() implies !(
                #[trigger] lines.skip(1)[i]).contains('\n') by {
                    assert(!lines[i + 1].contains('\n'));
                }
                lemma_fields(next, lines.skip(1), with_line(f, line));
            }
        }
    }
}

proof fn lemma_empty_line(f: Fields, line: Seq<char>)
    requires
        line.len() == 0,
    ensures
        with_line(f, line) == f,
{
    reveal_strlit("event: ");
    reveal_strlit("data: ");
}

/// Whether `lines[i]` is the last line that starts with `label`.
pub open spec fn last_with(lines: Seq<Seq<char>>, label: Seq<char>, i: int) -> bool {
    &&& 0 <= i < lines.len()
    &&& label.is_prefix_of(lines[i])
    &&& forall|j: int| i < j < lines.len() ==> !label.is_prefix_of(#[trigger] lines[j])
}

/// Whether no line starts with `label`.
pub open spec fn none_with(lines: Seq<Seq<char>>, label: Seq<char>) -> bool {
    forall|j: int| 0 <= j < lines.len() ==> !label.is_prefix_of(#[trigger] lines[j])
}

proof fn lemma_labels_differ(line: Seq<char>)
    ensures
        !("event: "@.is_prefix_of(line) && "data: "@.is_prefix_of(line)),
        "event: "@.len() == 7,
        "data: "@.len() == 6,
{
    reveal_strlit("event: ");
    reveal_strlit("data: ");
    if "event: "@.is_prefix_of(line) && "data: "@.is_prefix_of(line) {
        assert(line.subrange(0, 7)[0] == 'e');
        assert(line.subrange(0, 6)[0] == 'd');
    }
}

proof fn lemma_read_none(lines: Seq<Seq<char>>, f: Fields)
    ensures
        none_with(lines, "event: "@) ==> read_lines(lines, f).kind == f.kind,
        none_with(lines, "data: "@) ==> read_lines(lines, f).data == f.data,
    decreases lines.len(),
{
    if lines.len() > 0 {
        lemma_labels_differ(lines[0]);
        lemma_read_none(lines.skip(1), with_line(f, lines[0]));
        assert forall|label: Seq<char>| none_with(lines, label) implies #[trigger] none_with(
            lines.skip(1),
            label,
        ) by {
            assert forall|j: int| 0 <= j < lines.skip(1).len() implies !label.is_prefix_of(
                #[trigger] lines.skip(1)[j],
            ) by {
                assert(!label.is_prefix_of(lines[j + 1]));
            }
        }
        if none_with(lines, "event: "@) {
            assert(none_with(lines.skip(1), "event: "@));
            assert(!"event: "@.is_prefix_of(lines[0]));
        }
        if none_with(lines, "data: "@) {
            assert(none_with(lines.skip(1), "data: "@));
            assert(!"data: "@.is_prefix_of(lines[0]));
        }
    }
}

proof fn lemma_read_last(lines: Seq<Seq<char>>, f: Fields, i: int)
    ensures
        last_with(lines, "event: "@, i) ==> read_lines(lines, f).kind == trimmed(lines[i].skip(7)),
        last_with(lines, "data: "@, i) ==> read_lines(lines, f).data == trimmed(lines[i].skip(6)),
    decreases lines.len(),
{
    if lines.len() > 0 {
        lemma_labels_differ(lines[0]);
        let rest = lines.skip(1);
        let g = with_line(f, lines[0]);
        assert forall|label: Seq<char>| last_with(lines, label, i) && i > 0 implies #[trigger] last_with(
            rest,
            label,
            i - 1,
        ) by {
            assert(rest[i - 1] == lines[i]);
            assert forall|j: int| i - 1 < j < rest.len() implies !label.is_prefix_of(
                #[trigger] rest[j],
            ) by {
                assert(!label.is_prefix_of(lines[j + 1]));
            }
        }
        assert forall|label: Seq<char>| last_with(lines, label, 0) implies #[trigger] none_with(
            rest,
            label,
        ) by {
            assert forall|j: int| 0 <= j < rest.len() implies !label.is_prefix_of(
                #[trigger] rest[j],
            ) by {
                assert(!label.is_prefix_of(lines[j + 1]));
            }
        }
        if i > 0 {
            lemma_read_last(rest, g, i - 1);
            if last_with(lines, "event: "@, i) {
                assert(last_with(rest, "event: "@, i - 1));
                assert(rest[i - 1] == lines[i]);
            }
            if last_with(lines, "data: "@, i) {
                assert(last_with(rest, "data: "@, i - 1));
                assert(rest[i - 1] == lines[i]);
            }
        } else {
            lemma_read_none(rest, g);
            if last_with(lines, "event: "@, i) {
                assert(none_with(rest, "event: "@));
            }
            if last_with(lines, "data: "@, i) {
                assert(none_with(rest, "data: "@));
            }
        }
    }
}

/// The data of an update is the whole text behind `data: ` on the last line that
/// has it, without white space at its ends, where the last `event: ` line says
/// `filter_update`.
pub proof fn updates_carry_their_data(
    lines: Seq<Seq<char>>,
    e: int,
    d: int,
    pads: (Seq<char>, Seq<char>, Seq<char>, Seq<char>),
    data: Seq<char>,
)
    requires
        forall|i: int| 0 <= i < lines.len() ==> !(#[trigger] lines[i]).contains('\n'),
        last_with(lines, "event: "@, e),
        last_with(lines, "data: "@, d),
        blank_text(pads.0) && blank_text(pads.1) && blank_text(pads.2) && blank_text(pads.3),
        lines[e].skip(7) == pads.0 + "filter_update"@ + pads.1,
        lines[d].skip(6) == pads.2 + data + pads.3,
        data.len() > 0,
        tight(data),
    ensures
        update_of(joined(lines)) == Some(data),
{
    let none = Fields { kind: Seq::empty(), data: Seq::empty() };
    let event = joined(lines);
    lemma_fields(Seq::empty(), lines, none);
    assert(Seq::<char>::empty() + event =~= event);
    lemma_read_last(lines, none, e);
    lemma_read_last(lines, none, d);
    reveal_strlit("filter_update");
    padding_is_dropped(pads.0, "filter_update"@, pads.1);
    padding_is_dropped(pads.2, data, pads.3);
}

/// An event brings no update if no line says what it is, or the last one that
/// does says something else than `filter_update`, or no line has data, or the
/// last one that has it has only white space.
pub proof fn other_events_bring_none(lines: Seq<Seq<char>>, e: int, d: int)
    requires
        forall|i: int| 0 <= i < lines.len() ==> !(#[trigger] lines[i]).contains('\n'),
        ({
            ||| none_with(lines, "event: "@)
            ||| none_with(lines, "data: "@)
            ||| last_with(lines, "data: "@, d) && blank_text(lines[d].skip(6))
            ||| last_with(lines, "event: "@, e) && forall|a: Seq<char>, b: Seq<char>|
                blank_text(a) && blank_text(b) ==> lines[e].skip(7) != #[trigger] (a
                    + "filter_update"@ + b)
        }),
    ensures
        update_of(joined(lines)) is None,
{
    let none = Fields { kind: Seq::empty(), data: Seq::empty() };
    let event = joined(lines);
    lemma_fields(Seq::empty(), lines, none);
    assert(Seq::<char>::empty() + event =~= event);
    lemma_read_none(lines, none);
    lemma_read_last(lines, none, e);
    lemma_read_last(lines, none, d);
    reveal_strlit("filter_update");
    if none_with(lines, "event: "@) {
        assert("filter_update"@.len() > 0);
    } else if none_with(lines, "data: "@) {
    } else if last_with(lines, "data: "@, d) && blank_text(lines[d].skip(6)) {
        let value = lines[d].skip(6);
        padding_is_dropped(value, Seq::empty(), Seq::empty());
        assert(value + Seq::<char>::empty() + Seq::<char>::empty() =~= value);
    } else {
        let value = lines[e].skip(7);
        trimming_removes_the_ends(value);
        if trimmed(value) == "filter_update"@ {
            let (a, b) = choose|a: Seq<char>, b: Seq<char>|
                blank_text(a) && blank_text(b) && value == #[trigger] (a + trimmed(value) + b);
            assert(value == a + "filter_update"@ + b);
        }
    }
}

/// An announcement and one line of data carry that data, whatever it is.
pub proof fn announced_data_is_kept_whole(data: Seq<char>)
    requires
        data.len() > 0,
        !data.contains('\n'),
        tight(data),
    ensures
        update_of("event: filter_update\ndata: "@ + data) == Some(data),
{
    reveal_strlit("event: filter_update\ndata: ");
    reveal_strlit("event: filter_update");
    reveal_strlit("event: ");
    reveal_strlit("data: ");
    reveal_strlit("filter_update");
    let none = Seq::<char>::empty();
    let first = "event: filter_update"@;
    let second = "data: "@ + data;
    let lines = seq![first, second];
    assert(lines.skip(1) =~= seq![second]);
    assert(joined(lines.skip(1)) == second);
    assert(joined(lines) =~= "event: filter_update\ndata: "@ + data);
    assert(!first.contains('\n'));
    assert forall|i: int| 0 <= i < second.len() implies second[i] != '\n' by {
        if i >= 6 {
            assert(second[i] == data[i - 6]);
        }
    }
    assert(!second.contains('\n'));
    assert(first.subrange(0, 7) =~= "event: "@);
    assert(second.subrange(0, 6) =~= "data: "@);
    lemma_labels_differ(first);
    lemma_labels_differ(second);
    assert(first.skip(7) =~= none + "filter_update"@ + none);
    assert(second.skip(6) =~= none + data + none);
    assert(last_with(lines, "event: "@, 0));
    assert(last_with(lines, "data: "@, 1));
    updates_carry_their_data(lines, 0, 1, (none, none, none, none), data);
}

// ---------------------------------------------------------------------------
// Processing
// ---------------------------------------------------------------------------

/// A buffer without a complete event is left as it is, and so is the state.
pub proof fn incomplete_event_waits<F: Fn(String) -> Option<SignedDelta>>(
    parse: F,
    pre: State,
    buf: Seq<char>,
    post: State,
    rest: Seq<char>,
)
    requires
        forall|j: int| !#[trigger] gap_at(buf, j),
    ensures
        processed(parse, pre, buf, post, rest) <==> post == pre && rest == buf,
{
    event_ends_at_the_first_gap(buf, 0);
}

/// An event that brings no update is passed over.
pub proof fn other_event_is_passed_over<F: Fn(String) -> Option<SignedDelta>>(
    parse: F,
    pre: State,
    event: Seq<char>,
    after: Seq<char>,
    post: State,
    rest: Seq<char>,
)
    requires
        forall|j: int| !#[trigger] gap_at(event, j),
        event.len() > 0 ==> event[event.len() - 1] != '\n',
        update_of(event) is None,
    ensures
        processed(parse, pre, event + seq!['\n', '\n'] + after, post, rest) <==> processed(
            parse,
            pre,
            after,
            post,
            rest,
        ),
{
    let buf = event + seq!['\n', '\n'] + after;
    stream_is_events_and_gaps(event, after);
    assert(event_step(parse, pre, event, pre, false));
    assert forall|stopped: bool| #[trigger] run(parse, pre, buf, post, rest, stopped) <==> run(
        parse,
        pre,
        after,
        post,
        rest,
        stopped,
    ) by {
        if run(parse, pre, buf, post, rest, stopped) {
            let (next, stop) = first_step(parse, pre, buf, post, rest, stopped);
            assert(after_event(buf) == after);
        }
    }
    assert(run(parse, pre, buf, post, rest, true) <==> run(parse, pre, after, post, rest, true));
    assert(run(parse, pre, buf, post, rest, false) <==> run(parse, pre, after, post, rest, false));
}

/// What an update does: its data is read; what cannot be read is passed over; a
/// delta is taken in, and the rest of the stream meets the state after it; but
/// where the delta meets a frozen engine, nothing changes and the rest is left.
pub proof fn update_is_taken_in<F: Fn(String) -> Option<SignedDelta>>(
    parse: F,
    pre: State,
    event: Seq<char>,
    data: Seq<char>,
    after: Seq<char>,
    post: State,
    rest: Seq<char>,
)
    requires
        forall|j: int| !#[trigger] gap_at(event, j),
        event.len() > 0 ==> event[event.len() - 1] != '\n',
        update_of(event) == Some(data),
    ensures
        processed(parse, pre, event + seq!['\n', '\n'] + after, post, rest) <==> exists|
            text: String,
            parsed: Option<SignedDelta>,
        |
            {
                &&& text@ == data
                &&& #[trigger] call_ensures(parse, (text,), parsed)
                &&& match parsed {
                    None => processed(parse, pre, after, post, rest),
                    Some(delta) => if pre.guard is Frozen {
                        post == pre && rest == after
                    } else {
                        processed(parse, after_delta(pre, delta@), after, post, rest)
                    },
                }
            },
{
    let buf = event + seq!['\n', '\n'] + after;
    stream_is_events_and_gaps(event, after);
    assert(after_event(buf) == after);
    if processed(parse, pre, buf, post, rest) {
        let stopped = run(parse, pre, buf, post, rest, true);
        let (next, stop) = first_step(parse, pre, buf, post, rest, stopped);
        let (text, parsed) = choose|text: String, parsed: Option<SignedDelta>|
            {
                &&& text@ == data
                &&& #[trigger] call_ensures(parse, (text,), parsed)
                &&& match parsed {
                    None => next == pre && !stop,
                    Some(delta) => {
                        &&& next == after_delta(pre, delta@)
                        &&& stop <==> (delta_fault(pre, delta@) matches Some(
                            DeltaFault::EngineFrozen { .. },
                        ))
                    },
                }
            };
        assert(call_ensures(parse, (text,), parsed));
    }
    if exists|text: String, parsed: Option<SignedDelta>|
        {
            &&& text@ == data
            &&& #[trigger] call_ensures(parse, (text,), parsed)
            &&& match parsed {
                None => processed(parse, pre, after, post, rest),
                Some(delta) => if pre.guard is Frozen {
                    post == pre && rest == after
                } else {
                    processed(parse, after_delta(pre, delta@), after, post, rest)
                },
            }
        } {
        let (text, parsed) = choose|text: String, parsed: Option<SignedDelta>|
            {
                &&& text@ == data
                &&& #[trigger] call_ensures(parse, (text,), parsed)
                &&& match parsed {
                    None => processed(parse, pre, after, post, rest),
                    Some(delta) => if pre.guard is Frozen {
                        post == pre && rest == after
                    } else {
                        processed(parse, after_delta(pre, delta@), after, post, rest)
                    },
                }
            };
        match parsed {
            None => {
                assert(event_step(parse, pre, event, pre, false));
                let stopped = run(parse, pre, after, post, rest, true);
                assert(run(parse, pre, buf, post, rest, stopped));
            },
            Some(delta) => {
                let next = after_delta(pre, delta@);
                if pre.guard is Frozen {
                    assert(event_step(parse, pre, event, next, true));
                    assert(run(parse, pre, buf, post, rest, true));
                } else {
                    assert(event_step(parse, pre, event, next, false));
                    let stopped = run(parse, next, after, post, rest, true);
                    assert(run(parse, pre, buf, post, rest, stopped));
                }
            },
        }
    }
}

// ---------------------------------------------------------------------------
// Waits
// ---------------------------------------------------------------------------

/// Each wait is twice the one before, but five minutes at most. The first is
/// five seconds for the complete filter, and three for the stream.
pub proof fn waits_double(secs: u64)
    ensures
        2 * secs <= 300 ==> next_wait(secs) == 2 * secs,
        2 * secs >= 300 ==> next_wait(secs) == 300,
        INITIAL_RETRY_SECS == 5,
        MAX_RETRY_SECS == 300,
        SSE_RECONNECT_SECS == 3,
{
}

} // verus!
