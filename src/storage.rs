use vstd::prelude::*;

use crate::event::{
    bool_text, event_from_record, lemma_free_concat, lemma_record_fields_free, record_fields,
    record_text, Event, EventView,
};
use crate::planner::views_of_events;
use crate::text::{
    free_of, joined, lemma_split_extend, lemma_split_nonempty, push_char, split_on, split_text,
    views_of,
};

verus! {

impl EventView {
    /// An event whose record reads back unchanged from a file: storable, and no line break
    /// in its texts.
    pub open spec fn fits_on_line(self) -> bool {
        &&& self.storable()
        &&& free_of(self.name, '\n')
        &&& free_of(self.note, '\n')
    }
}

pub open spec fn all_fit_on_lines(events: Seq<EventView>) -> bool {
    forall|k: int| 0 <= k < events.len() ==> (#[trigger] events[k]).fits_on_line()
}

/// The file holding these events: one record per line, each line ended by `\n`.
pub open spec fn file_text(events: Seq<EventView>) -> Seq<char>
    decreases events.len(),
{
    if events.len() == 0 {
        Seq::empty()
    } else {
        file_text(events.drop_last()) + record_text(events.last()) + seq!['\n']
    }
}

/// A file after one more record has been appended to it.
pub open spec fn appended_text(prefix: Seq<char>, e: EventView) -> Seq<char> {
    prefix + record_text(e) + seq!['\n']
}

pub open spec fn strip_cr(line: Seq<char>) -> Seq<char> {
    if line.len() > 0 && line.last() == '\r' {
        line.drop_last()
    } else {
        line
    }
}

/// The lines of a file: the pieces between line feeds, a line that a line feed ends losing
/// one `\r` before it.
pub open spec fn file_lines(text: Seq<char>) -> Seq<Seq<char>> {
    let pieces = split_on(text, '\n');
    Seq::new(
        pieces.len(),
        |i: int|
            if i < pieces.len() - 1 {
                strip_cr(pieces[i])
            } else {
                pieces[i]
            },
    )
}

/// The events that the lines hold, in order; lines that are no record are passed over.
pub open spec fn decoded_events(lines: Seq<Seq<char>>) -> Seq<EventView>
    decreases lines.len(),
{
    if lines.len() == 0 {
        Seq::empty()
    } else {
        let before = decoded_events(lines.drop_last());
        match event_from_record(lines.last()) {
            Some(e) => before.push(e),
            None => before,
        }
    }
}

pub open spec fn events_in_file(text: Seq<char>) -> Seq<EventView> {
    decoded_events(file_lines(text))
}

/// The events, in order, except those with this id.
pub open spec fn without_id(events: Seq<EventView>, id: usize) -> Seq<EventView>
    decreases events.len(),
{
    if events.len() == 0 {
        Seq::empty()
    } else {
        let before = without_id(events.drop_last(), id);
        if events.last().id == id {
            before
        } else {
            before.push(events.last())
        }
    }
}

/// Every line that is the record of a storable event reads as that event.
pub open spec fn lines_read_back(lines: Seq<Seq<char>>) -> bool {
    forall|k: int, e: EventView|
        #![trigger lines[k], record_text(e)]
        0 <= k < lines.len() && e.storable() && lines[k] == record_text(e) ==> event_from_record(
            lines[k],
        ) == Some(e)
}

proof fn lemma_joined_free(pieces: Seq<Seq<char>>, separator: char, c: char)
    requires
        separator != c,
        forall|i: int| 0 <= i < pieces.len() ==> free_of(#[trigger] pieces[i], c),
    ensures
        free_of(joined(pieces, separator), c),
    decreases pieces.len(),
{
    if pieces.len() > 1 {
        let init = pieces.drop_last();
        assert forall|i: int| 0 <= i < init.len() implies free_of(#[trigger] init[i], c) by {
            assert(init[i] == pieces[i]);
        }
        lemma_joined_free(init, separator, c);
        lemma_free_concat(joined(init, separator), seq![separator], c);
        lemma_free_concat(joined(init, separator) + seq![separator], pieces.last(), c);
    } else if pieces.len() == 1 {
        assert(free_of(pieces[0], c));
    }
}

proof fn lemma_record_free_of_line_feed(e: EventView)
    requires
        free_of(e.name, '\n'),
        free_of(e.note, '\n'),
    ensures
        free_of(record_text(e), '\n'),
{
    lemma_record_fields_free(e, '\n');
    lemma_joined_free(record_fields(e), '|', '\n');
}

proof fn lemma_record_ends_in_bool(e: EventView)
    ensures
        strip_cr(record_text(e)) == record_text(e),
{
    let f = record_fields(e);
    assert(f.len() == 8);
    let last = f.last();
    assert(last == bool_text(e.completed));
    let r = joined(f.drop_last(), '|') + seq!['|'] + last;
    assert(record_text(e) == r);
    assert(r.last() == last.last());
}

/// A record that fits on a line holds no line break and does not end in `\r`.
proof fn lemma_record_on_one_line(e: EventView)
    requires
        e.fits_on_line(),
    ensures
        free_of(record_text(e), '\n'),
        strip_cr(record_text(e)) == record_text(e),
{
    lemma_record_free_of_line_feed(e);
    lemma_record_ends_in_bool(e);
}

/// The pieces of a file of records are the records, then an empty piece after the last
/// line feed.
proof fn lemma_split_file_text(events: Seq<EventView>)
    requires
        all_fit_on_lines(events),
    ensures
        split_on(file_text(events), '\n') == events.map_values(|e: EventView| record_text(e)).push(
            Seq::empty(),
        ),
    decreases events.len(),
{
    if events.len() > 0 {
        let init = events.drop_last();
        assert(all_fit_on_lines(init)) by {
            assert forall|k: int| 0 <= k < init.len() implies (#[trigger] init[k]).fits_on_line() by {
                assert(init[k] == events[k]);
            }
        }
        lemma_split_file_text(init);
        let front = file_text(init);
        let r = record_text(events.last());
        assert(events.last() == events[events.len() - 1]);
        lemma_record_on_one_line(events.last());
        lemma_split_extend(front, r, '\n');
        assert(Seq::<char>::empty() + r =~= r);
        let whole = front + r + seq!['\n'];
        assert(whole.drop_last() =~= front + r);
        assert(split_on(whole, '\n') == split_on(front + r, '\n').push(Seq::empty()));
        assert(split_on(whole, '\n') =~= events.map_values(|e: EventView| record_text(e)).push(
            Seq::empty(),
        ));
    }
}

proof fn lemma_file_lines_of_file_text(events: Seq<EventView>)
    requires
        all_fit_on_lines(events),
    ensures
        file_lines(file_text(events)) == events.map_values(|e: EventView| record_text(e)).push(
            Seq::empty(),
        ),
{
    lemma_split_file_text(events);
    let lines = events.map_values(|e: EventView| record_text(e)).push(Seq::empty());
    assert forall|i: int| 0 <= i < events.len() implies strip_cr(#[trigger] lines[i]) == lines[i] by {
        lemma_record_on_one_line(events[i]);
    }
    assert(file_lines(file_text(events)) =~= lines);
}

proof fn lemma_empty_line_is_no_record()
    ensures
        event_from_record(Seq::empty()) is None,
{
    assert(split_on(Seq::<char>::empty(), '|').len() == 1);
}

proof fn lemma_decoded_records(events: Seq<EventView>)
    requires
        forall|k: int|
            0 <= k < events.len() ==> event_from_record(record_text(#[trigger] events[k]))
                == Some(events[k]),
    ensures
        decoded_events(events.map_values(|e: EventView| record_text(e))) == events,
    decreases events.len(),
{
    if events.len() > 0 {
        let init = events.drop_last();
        assert forall|k: int| 0 <= k < init.len() implies event_from_record(
            record_text(#[trigger] init[k]),
        ) == Some(init[k]) by {
            assert(init[k] == events[k]);
        }
        lemma_decoded_records(init);
        let lines = events.map_values(|e: EventView| record_text(e));
        assert(lines.drop_last() =~= init.map_values(|e: EventView| record_text(e)));
        assert(events.last() == events[events.len() - 1]);
        assert(events =~= init.push(events.last()));
    }
}

/// Appending a record to a file that is empty or ends in a line feed adds one line.
proof fn lemma_append_lines(prefix: Seq<char>, e: EventView)
    requires
        e.fits_on_line(),
        prefix.len() == 0 || prefix.last() == '\n',
    ensures
        file_lines(prefix).len() >= 1,
        file_lines(prefix).last() == Seq::<char>::empty(),
        file_lines(appended_text(prefix, e)) == file_lines(prefix).drop_last().push(
            record_text(e),
        ).push(Seq::empty()),
{
    let sp = split_on(prefix, '\n');
    lemma_split_nonempty(prefix, '\n');
    if prefix.len() > 0 {
        lemma_split_nonempty(prefix.drop_last(), '\n');
    }
    assert(sp.last() == Seq::<char>::empty());
    let r = record_text(e);
    lemma_record_on_one_line(e);
    lemma_split_extend(prefix, r, '\n');
    assert(Seq::<char>::empty() + r =~= r);
    let whole = appended_text(prefix, e);
    assert(whole.drop_last() =~= prefix + r);
    let sw = split_on(whole, '\n');
    assert(sw == sp.update(sp.len() - 1, r).push(Seq::empty()));
    assert(file_lines(whole) =~= file_lines(prefix).drop_last().push(r).push(Seq::empty()));
}

/// Appending the record of an event to a file adds that event to what the file holds.
proof fn lemma_events_after_append(prefix: Seq<char>, e: EventView)
    requires
        e.fits_on_line(),
        prefix.len() == 0 || prefix.last() == '\n',
        event_from_record(record_text(e)) == Some(e),
    ensures
        events_in_file(appended_text(prefix, e)) == events_in_file(prefix).push(e),
{
    lemma_append_lines(prefix, e);
    lemma_empty_line_is_no_record();
    let before = file_lines(prefix).drop_last();
    let with_record = before.push(record_text(e));
    let lines = with_record.push(Seq::empty());
    assert(lines.drop_last() == with_record);
    assert(decoded_events(lines) == decoded_events(with_record));
    assert(with_record.drop_last() =~= before);
    assert(decoded_events(with_record) == decoded_events(before).push(e));
    assert(file_lines(prefix) =~= before.push(Seq::empty()));
    assert(file_lines(prefix).drop_last() =~= before);
    assert(decoded_events(file_lines(prefix)) == decoded_events(before));
}

fn without_cr(line: &str) -> (r: &str)
    ensures
        r@ == strip_cr(line@),
{
    let n = line.unicode_len();
    if n > 0 && line.get_char(n - 1) == '\r' {
        line.substring_char(0, n - 1)
    } else {
        line
    }
}

/// The events that a file's text holds, in file order. Each line is read with
/// `Event::from_string`; lines that hold no record are passed over. A file written as the
/// records of events reads back as those events, and a record appended to a file reads
/// back as one more event at the end.
pub fn events_from_file_text(text: &str) -> (r: Vec<Event>)
    ensures
        views_of_events(r@) == events_in_file(text@),
        forall|events: Seq<EventView>|
            all_fit_on_lines(events) && text@ == #[trigger] file_text(events) ==> views_of_events(
                r@,
            ) == events,
        forall|prefix: Seq<char>, e: EventView|
            e.fits_on_line() && (prefix.len() == 0 || prefix.last() == '\n') && text@
                == #[trigger] appended_text(prefix, e) ==> views_of_events(r@) == events_in_file(
                prefix,
            ).push(e),
{
    let pieces = split_text(text, '\n');
    let ghost lines = file_lines(text@);
    let n = pieces.len();
    let mut events: Vec<Event> = Vec::new();
    let mut i: usize = 0;
    while i < n
        invariant
            views_of(pieces@) == split_on(text@, '\n'),
            lines == file_lines(text@),
            n == pieces.len() == lines.len(),
            i <= n,
            views_of_events(events@) == decoded_events(lines.take(i as int)),
            lines_read_back(lines.take(i as int)),
        decreases n - i,
    {
        assert(pieces@[i as int]@ == split_on(text@, '\n')[i as int]);
        let line: &str = if i + 1 < n {
            without_cr(pieces[i].as_str())
        } else {
            pieces[i].as_str()
        };
        assert(line@ == lines[i as int]);
        let decoded = Event::from_string(line);
        assert(lines.take(i + 1).drop_last() =~= lines.take(i as int));
        match decoded {
            Some(e) => {
                events.push(e);
                assert(views_of_events(events@) =~= decoded_events(lines.take(i + 1)));
            },
            None => {
                assert(views_of_events(events@) =~= decoded_events(lines.take(i + 1)));
            },
        }
        assert(lines_read_back(lines.take(i + 1))) by {
            let t = lines.take(i + 1);
            assert forall|k: int, e: EventView|
                #![trigger t[k], record_text(e)]
                0 <= k < t.len() && e.storable() && t[k] == record_text(e) implies event_from_record(
                t[k],
            ) == Some(e) by {
                if k < i {
                    assert(t[k] == lines.take(i as int)[k]);
                }
            }
        }
        i = i + 1;
    }
    assert(lines.take(n as int) =~= lines);
    proof {
        assert forall|es: Seq<EventView>|
            all_fit_on_lines(es) && text@ == #[trigger] file_text(es) implies views_of_events(
            events@,
        ) == es by {
            lemma_file_lines_of_file_text(es);
            lemma_empty_line_is_no_record();
            let records = es.map_values(|e: EventView| record_text(e));
            assert forall|k: int| 0 <= k < es.len() implies event_from_record(
                record_text(#[trigger] es[k]),
            ) == Some(es[k]) by {
                assert(lines[k] == record_text(es[k]));
            }
            lemma_decoded_records(es);
            assert(lines.drop_last() =~= records);
        }
        assert forall|prefix: Seq<char>, e: EventView|
            e.fits_on_line() && (prefix.len() == 0 || prefix.last() == '\n') && text@
                == #[trigger] appended_text(prefix, e) implies views_of_events(events@)
            == events_in_file(prefix).push(e) by {
            lemma_append_lines(prefix, e);
            let k = file_lines(prefix).len() - 1;
            assert(lines[k] == record_text(e));
            lemma_events_after_append(prefix, e);
        }
    }
    events
}

/// The line that appending an event adds to its file: its record and a line feed.
pub fn record_line(event: &Event) -> (r: String)
    ensures
        r@ == record_text(event@) + seq!['\n'],
{
    let mut line = event.to_string();
    push_char(&mut line, '\n');
    line
}

/// The text of a file holding these events, one record per line.
pub fn file_text_of(events: &Vec<Event>) -> (r: String)
    ensures
        r@ == file_text(views_of_events(events@)),
{
    let mut out = String::new();
    let mut i: usize = 0;
    while i < events.len()
        invariant
            i <= events.len(),
            out@ == file_text(views_of_events(events@).take(i as int)),
        decreases events.len() - i,
    {
        let line = record_line(&events[i]);
        out.append(line.as_str());
        assert(views_of_events(events@).take(i + 1).drop_last() =~= views_of_events(
            events@,
        ).take(i as int));
        i = i + 1;
    }
    assert(views_of_events(events@).take(i as int) =~= views_of_events(events@));
    out
}

/// The file's text once the event with this id is taken out: the events it holds, but that
/// one, written back one record per line. A file written as the records of events keeps
/// the records of all the others, unchanged and in order.
pub fn rewrite_excluding(text: &str, event_id: usize) -> (r: String)
    ensures
        r@ == file_text(without_id(events_in_file(text@), event_id)),
        forall|events: Seq<EventView>|
            all_fit_on_lines(events) && text@ == #[trigger] file_text(events) ==> r@ == file_text(
                without_id(events, event_id),
            ),
{
    let events = events_from_file_text(text);
    let ghost all = views_of_events(events@);
    let mut out = String::new();
    let mut i: usize = 0;
    while i < events.len()
        invariant
            i <= events.len(),
            all == views_of_events(events@),
            out@ == file_text(without_id(all.take(i as int), event_id)),
        decreases events.len() - i,
    {
        assert(all.take(i + 1).drop_last() =~= all.take(i as int));
        if *events[i].get_id() != event_id {
            let line = record_line(&events[i]);
            out.append(line.as_str());
            assert(without_id(all.take(i + 1), event_id).drop_last() == without_id(
                all.take(i as int),
                event_id,
            ));
        }
        i = i + 1;
    }
    assert(all.take(i as int) =~= all);
    out
}

/// Taking out an id that no event has leaves the events as they are.
pub proof fn lemma_without_absent_id(events: Seq<EventView>, id: usize)
    requires
        forall|k: int| 0 <= k < events.len() ==> (#[trigger] events[k]).id != id,
    ensures
        without_id(events, id) == events,
    decreases events.len(),
{
    if events.len() > 0 {
        let init = events.drop_last();
        assert forall|k: int| 0 <= k < init.len() implies (#[trigger] init[k]).id != id by {
            assert(init[k] == events[k]);
        }
        lemma_without_absent_id(init, id);
        assert(events.last() == events[events.len() - 1]);
        assert(events =~= init.push(events.last()));
    }
}

/// Where ids are unique, taking out an id from the file removes exactly the one event that
/// has it, as deleting it from the planner does.
pub proof fn lemma_without_id_removes_one(events: Seq<EventView>, id: usize, i: int)
    requires
        0 <= i < events.len(),
        events[i].id == id,
        forall|a: int, b: int|
            0 <= a < b < events.len() ==> #[trigger] events[a].id != #[trigger] events[b].id,
    ensures
        without_id(events, id) == events.remove(i),
    decreases events.len(),
{
    let init = events.drop_last();
    let last = events.len() - 1;
    assert(events.last() == events[last]);
    if i == last {
        assert forall|k: int| 0 <= k < init.len() implies (#[trigger] init[k]).id != id by {
            assert(init[k] == events[k]);
        }
        lemma_without_absent_id(init, id);
        assert(events.remove(i) =~= init);
    } else {
        assert(init[i] == events[i]);
        assert forall|a: int, b: int|
            0 <= a < b < init.len() implies #[trigger] init[a].id != #[trigger] init[b].id by {
            assert(init[a] == events[a] && init[b] == events[b]);
        }
        lemma_without_id_removes_one(init, id, i);
        assert(events[last].id != id);
        assert(events.remove(i) =~= init.remove(i).push(events.last()));
    }
}

} // verus!
