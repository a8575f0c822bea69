use vstd::prelude::*;

use crate::priority::Priority;
use crate::reoccurance::Reoccurance;
use crate::text::{
    decimal_text, free_of, is_digit, joined, lemma_decimal_digits,
    lemma_split_joined, parse_usize, push_char, push_decimal, same_text, split_on, split_text,
    unsigned_digits, usize_from_text, views_of, zero_padded,
};
use crate::timestamp::{
    parsed_date_time, timestamp_text, year_text, field_text, Timestamp, RECORD_TIME_FORMAT,
};

verus! {

/// The plain contents of an event.
pub struct EventView {
    pub id: usize,
    pub name: Seq<char>,
    pub start: Timestamp,
    pub end: Timestamp,
    pub priority: Priority,
    pub reoccurance: Reoccurance,
    pub note: Seq<char>,
    pub completed: bool,
}

/// One scheduled item.
#[derive(Clone, Debug, PartialEq, Eq)]
pub struct Event {
    id: usize,
    name: String,
    start_time: Timestamp,
    end_time: Timestamp,
    priority: Priority,
    reoccurance: Reoccurance,
    note: String,
    completed: bool,
}

impl EventView {
    /// An event that a record gives back unchanged: real dates and times, and no `|` in its
    /// texts.
    pub open spec fn storable(self) -> bool {
        &&& self.start.wf()
        &&& self.end.wf()
        &&& free_of(self.name, '|')
        &&& free_of(self.note, '|')
    }
}

pub open spec fn bool_text(b: bool) -> Seq<char> {
    if b {
        seq!['t', 'r', 'u', 'e']
    } else {
        seq!['f', 'a', 'l', 's', 'e']
    }
}

/// How `bool` reads text: exactly `true` or `false`.
pub open spec fn bool_from_text(text: Seq<char>) -> Option<bool> {
    if text == bool_text(true) {
        Some(true)
    } else if text == bool_text(false) {
        Some(false)
    } else {
        None
    }
}

/// The eight fields of a record, in order.
pub open spec fn record_fields(e: EventView) -> Seq<Seq<char>> {
    seq![
        decimal_text(e.id as nat),
        e.name,
        timestamp_text(e.start),
        timestamp_text(e.end),
        e.priority.name_text(),
        e.reoccurance.name_text(),
        e.note,
        bool_text(e.completed),
    ]
}

/// The one-line record of an event: its fields joined by `|`.
pub open spec fn record_text(e: EventView) -> Seq<char> {
    joined(record_fields(e), '|')
}

/// The event a line holds: eight `|`-separated fields, a decimal id, two times, a `bool`;
/// the priority and recurrence are read leniently.
pub open spec fn event_from_record(line: Seq<char>) -> Option<EventView> {
    let f = split_on(line, '|');
    if f.len() != 8 {
        None
    } else {
        let id = usize_from_text(f[0]);
        let start = parsed_date_time(f[2], RECORD_TIME_FORMAT@);
        let end = parsed_date_time(f[3], RECORD_TIME_FORMAT@);
        let completed = bool_from_text(f[7]);
        if id is Some && start is Some && end is Some && completed is Some {
            Some(
                EventView {
                    id: id->0,
                    name: f[1],
                    start: start->0,
                    end: end->0,
                    priority: Priority::from_text(f[4]),
                    reoccurance: Reoccurance::from_text(f[5]),
                    note: f[6],
                    completed: completed->0,
                },
            )
        } else {
            None
        }
    }
}

pub proof fn lemma_free_concat(a: Seq<char>, b: Seq<char>, c: char)
    requires
        free_of(a, c),
        free_of(b, c),
    ensures
        free_of(a + b, c),
{
    assert forall|i: int| 0 <= i < (a + b).len() implies (a + b)[i] != c by {
        if i >= a.len() {
            assert((a + b)[i] == b[i - a.len()]);
        }
    }
}

/// A character that never occurs in a rendered number or time.
pub open spec fn outside_time_text(c: char) -> bool {
    !is_digit(c) && c != '-' && c != '+' && c != ' ' && c != ':'
}

pub proof fn lemma_padded_free(n: nat, width: nat, c: char)
    requires
        outside_time_text(c),
    ensures
        free_of(zero_padded(n, width), c),
{
    lemma_decimal_digits(n);
    let digits = decimal_text(n);
    assert(free_of(digits, c));
    if digits.len() < width {
        let zeros = Seq::new((width - digits.len()) as nat, |_i: int| '0');
        assert(free_of(zeros, c));
        lemma_free_concat(zeros, digits, c);
    }
}

pub proof fn lemma_timestamp_text_free(t: Timestamp, c: char)
    requires
        outside_time_text(c),
    ensures
        free_of(timestamp_text(t), c),
{
    let y = t.year as int;
    if 0 <= y <= 9999 {
        lemma_padded_free(y as nat, 4, c);
    } else if y < 0 {
        lemma_padded_free((-y) as nat, 4, c);
        lemma_free_concat(seq!['-'], zero_padded((-y) as nat, 4), c);
    } else {
        lemma_padded_free(y as nat, 4, c);
        lemma_free_concat(seq!['+'], zero_padded(y as nat, 4), c);
    }
    let fields = seq![
        field_text('-', t.month as nat),
        field_text('-', t.day as nat),
        field_text(' ', t.hour as nat),
        field_text(':', t.minute as nat),
        field_text(':', t.second as nat),
    ];
    lemma_padded_free(t.month as nat, 2, c);
    lemma_padded_free(t.day as nat, 2, c);
    lemma_padded_free(t.hour as nat, 2, c);
    lemma_padded_free(t.minute as nat, 2, c);
    lemma_padded_free(t.second as nat, 2, c);
    lemma_free_concat(seq!['-'], zero_padded(t.month as nat, 2), c);
    lemma_free_concat(seq!['-'], zero_padded(t.day as nat, 2), c);
    lemma_free_concat(seq![' '], zero_padded(t.hour as nat, 2), c);
    lemma_free_concat(seq![':'], zero_padded(t.minute as nat, 2), c);
    lemma_free_concat(seq![':'], zero_padded(t.second as nat, 2), c);
    let a = year_text(y);
    lemma_free_concat(a, fields[0], c);
    lemma_free_concat(a + fields[0], fields[1], c);
    lemma_free_concat(a + fields[0] + fields[1], fields[2], c);
    lemma_free_concat(a + fields[0] + fields[1] + fields[2], fields[3], c);
    lemma_free_concat(a + fields[0] + fields[1] + fields[2] + fields[3], fields[4], c);
}

proof fn lemma_priority_name_free(p: Priority, c: char)
    requires
        c == '|' || c == '\n',
    ensures
        free_of(p.name_text(), c),
{
}

proof fn lemma_reoccurance_name_free(r: Reoccurance, c: char)
    requires
        c == '|' || c == '\n',
    ensures
        free_of(r.name_text(), c),
{
}

/// No field of a record holds `c` when the event's texts do not.
pub proof fn lemma_record_fields_free(e: EventView, c: char)
    requires
        c == '|' || c == '\n',
        free_of(e.name, c),
        free_of(e.note, c),
    ensures
        forall|i: int| 0 <= i < 8 ==> free_of(#[trigger] record_fields(e)[i], c),
{
    let f = record_fields(e);
    lemma_decimal_digits(e.id as nat);
    lemma_timestamp_text_free(e.start, c);
    lemma_timestamp_text_free(e.end, c);
    lemma_priority_name_free(e.priority, c);
    lemma_reoccurance_name_free(e.reoccurance, c);
    assert(free_of(f[0], c));
    assert(free_of(bool_text(e.completed), c));
    assert forall|i: int| 0 <= i < 8 implies free_of(#[trigger] f[i], c) by {
        if i == 0 {
        } else if i == 1 {
        } else if i == 2 {
        } else if i == 3 {
        } else if i == 4 {
        } else if i == 5 {
        } else if i == 6 {
        } else {
        }
    }
}

/// A storable event's record splits into its fields, and each field reads back.
pub proof fn lemma_record_reads_back(e: EventView)
    requires
        e.storable(),
    ensures
        split_on(record_text(e), '|') == record_fields(e),
        usize_from_text(decimal_text(e.id as nat)) == Some(e.id),
        Priority::from_text(e.priority.name_text()) == e.priority,
        Reoccurance::from_text(e.reoccurance.name_text()) == e.reoccurance,
        bool_from_text(bool_text(e.completed)) == Some(e.completed),
{
    let f = record_fields(e);
    lemma_decimal_digits(e.id as nat);
    lemma_record_fields_free(e, '|');
    lemma_split_joined(f, '|');
    let digits = decimal_text(e.id as nat);
    assert(is_digit(digits[0]));
    assert(unsigned_digits(digits) == digits);
}

impl View for Event {
    type V = EventView;

    closed spec fn view(&self) -> EventView {
        EventView {
            id: self.id,
            name: self.name@,
            start: self.start_time,
            end: self.end_time,
            priority: self.priority,
            reoccurance: self.reoccurance,
            note: self.note@,
            completed: self.completed,
        }
    }
}

impl Event {
    pub fn new(
        id: usize,
        name: String,
        start_time: Timestamp,
        end_time: Timestamp,
        priority: Priority,
        reoccurance: Reoccurance,
        note: String,
        completed: bool,
    ) -> (r: Event)
        ensures
            r@ == (EventView {
                id,
                name: name@,
                start: start_time,
                end: end_time,
                priority,
                reoccurance,
                note: note@,
                completed,
            }),
    {
        Event { id, name, start_time, end_time, priority, reoccurance, note, completed }
    }

    /// Whether the event ends before it starts, which deserves a warning but is allowed.
    pub fn ends_before_start(&self) -> (r: bool)
        ensures
            r == self@.end.precedes(self@.start),
    {
        self.end_time.is_before(&self.start_time)
    }

    pub fn get_id(&self) -> (r: &usize)
        ensures
            *r == self@.id,
    {
        &self.id
    }

    pub fn get_name(&self) -> (r: &String)
        ensures
            r@ == self@.name,
    {
        &self.name
    }

    pub fn get_start_time(&self) -> (r: &Timestamp)
        ensures
            *r == self@.start,
    {
        &self.start_time
    }

    pub fn get_end_time(&self) -> (r: &Timestamp)
        ensures
            *r == self@.end,
    {
        &self.end_time
    }

    pub fn get_priority(&self) -> (r: &Priority)
        ensures
            *r == self@.priority,
    {
        &self.priority
    }

    pub fn get_reoccurance(&self) -> (r: &Reoccurance)
        ensures
            *r == self@.reoccurance,
    {
        &self.reoccurance
    }

    pub fn get_note(&self) -> (r: &String)
        ensures
            r@ == self@.note,
    {
        &self.note
    }

    pub fn get_completed(&self) -> (r: bool)
        ensures
            r == self@.completed,
    {
        self.completed
    }

    pub fn set_name(&mut self, new_name: String)
        ensures
            final(self)@ == (EventView { name: new_name@, ..old(self)@ }),
    {
        self.name = new_name;
    }

    pub fn set_start_time(&mut self, new_start_time: Timestamp)
        ensures
            final(self)@ == (EventView { start: new_start_time, ..old(self)@ }),
    {
        self.start_time = new_start_time;
    }

    pub fn set_end_time(&mut self, new_end_time: Timestamp)
        ensures
            final(self)@ == (EventView { end: new_end_time, ..old(self)@ }),
    {
        self.end_time = new_end_time;
    }

    pub fn set_reoccurance(&mut self, new_reoccurance: Reoccurance)
        ensures
            final(self)@ == (EventView { reoccurance: new_reoccurance, ..old(self)@ }),
    {
        self.reoccurance = new_reoccurance;
    }

    pub fn set_note(&mut self, new_note: String)
        ensures
            final(self)@ == (EventView { note: new_note@, ..old(self)@ }),
    {
        self.note = new_note;
    }

    pub fn set_completed(&mut self, new_completed: bool)
        ensures
            final(self)@ == (EventView { completed: new_completed, ..old(self)@ }),
    {
        self.completed = new_completed;
    }
}

proof fn lemma_joined_first(f: Seq<Seq<char>>, separator: char)
    requires
        f.len() >= 1,
    ensures
        joined(f.take(1), separator) == f[0],
{
    assert(f.take(1).len() == 1);
}

proof fn lemma_joined_step(f: Seq<Seq<char>>, k: int, separator: char)
    requires
        1 <= k < f.len(),
    ensures
        joined(f.take(k + 1), separator) == joined(f.take(k), separator) + seq![separator] + f[k],
{
    assert(f.take(k + 1).drop_last() =~= f.take(k));
}

/// What the parts of a line read as, when the line is the record of a storable event.
proof fn lemma_fields_of_record(
    line: Seq<char>,
    id: Option<usize>,
    start: Option<Timestamp>,
    end: Option<Timestamp>,
    completed: Option<bool>,
)
    requires
        split_on(line, '|').len() == 8,
        id == usize_from_text(split_on(line, '|')[0]),
        forall|t: Timestamp|
            t.wf() && split_on(line, '|')[2] == #[trigger] timestamp_text(t) ==> start == Some(t),
        forall|t: Timestamp|
            t.wf() && split_on(line, '|')[3] == #[trigger] timestamp_text(t) ==> end == Some(t),
        completed == bool_from_text(split_on(line, '|')[7]),
    ensures
        forall|e: EventView| e.storable() && line == #[trigger] record_text(e) ==> {
            &&& split_on(line, '|') == record_fields(e)
            &&& id == Some(e.id)
            &&& start == Some(e.start)
            &&& end == Some(e.end)
            &&& completed == Some(e.completed)
            &&& Priority::from_text(split_on(line, '|')[4]) == e.priority
            &&& Reoccurance::from_text(split_on(line, '|')[5]) == e.reoccurance
        },
{
    assert forall|e: EventView| e.storable() && line == #[trigger] record_text(e) implies {
        &&& split_on(line, '|') == record_fields(e)
        &&& id == Some(e.id)
        &&& start == Some(e.start)
        &&& end == Some(e.end)
        &&& completed == Some(e.completed)
        &&& Priority::from_text(split_on(line, '|')[4]) == e.priority
        &&& Reoccurance::from_text(split_on(line, '|')[5]) == e.reoccurance
    } by {
        lemma_record_reads_back(e);
    }
}

fn push_separator(out: &mut String)
    ensures
        final(out)@ == old(out)@ + seq!['|'],
{
    push_char(out, '|');
    assert(final(out)@ =~= old(out)@ + seq!['|']);
}

fn push_str(out: &mut String, piece: &str)
    ensures
        final(out)@ == old(out)@ + piece@,
{
    out.append(piece);
}

fn parse_bool(text: &str) -> (r: Option<bool>)
    ensures
        r == bool_from_text(text@),
{
    proof {
        reveal_strlit("true");
        reveal_strlit("false");
    }
    if same_text(text, "true") {
        assert("true"@ =~= bool_text(true));
        Some(true)
    } else if same_text(text, "false") {
        assert("false"@ =~= bool_text(false));
        Some(false)
    } else {
        assert("true"@ =~= bool_text(true));
        assert("false"@ =~= bool_text(false));
        None
    }
}

impl Event {
    /// The record of this event: `id|name|start|end|priority|reoccurance|note|completed`.
    pub fn to_string(&self) -> (r: String)
        ensures
            r@ == record_text(self@),
    {
        let mut out = String::new();
        let ghost f = record_fields(self@);
        push_decimal(&mut out, self.id as u64);
        proof {
            lemma_joined_first(f, '|');
        }
        push_separator(&mut out);
        push_str(&mut out, self.name.as_str());
        proof {
            lemma_joined_step(f, 1, '|');
        }
        push_separator(&mut out);
        self.start_time.push_text(&mut out);
        proof {
            lemma_joined_step(f, 2, '|');
        }
        push_separator(&mut out);
        self.end_time.push_text(&mut out);
        proof {
            lemma_joined_step(f, 3, '|');
        }
        push_separator(&mut out);
        push_str(&mut out, self.priority.name());
        proof {
            lemma_joined_step(f, 4, '|');
        }
        push_separator(&mut out);
        push_str(&mut out, self.reoccurance.name());
        proof {
            lemma_joined_step(f, 5, '|');
        }
        push_separator(&mut out);
        push_str(&mut out, self.note.as_str());
        proof {
            lemma_joined_step(f, 6, '|');
        }
        push_separator(&mut out);
        proof {
            reveal_strlit("true");
            reveal_strlit("false");
        }
        if self.completed {
            push_str(&mut out, "true");
        } else {
            push_str(&mut out, "false");
        }
        proof {
            lemma_joined_step(f, 7, '|');
            assert(f.take(8) =~= f);
        }
        out
    }

    /// Reads a record. There is no event unless the line has exactly eight fields, a decimal
    /// id, two times that parse and `true` or `false` last; an unknown priority reads as
    /// `Medium` and an unknown recurrence as `Once`. A record made by `to_string` from a
    /// storable event reads back as that event.
    pub fn from_string(s: &str) -> (r: Option<Event>)
        ensures
            match r {
                Some(e) => event_from_record(s@) == Some(e@),
                None => event_from_record(s@) is None,
            },
            forall|e: EventView|
                e.storable() && s@ == #[trigger] record_text(e) ==> (r matches Some(d) && d@ == e),
    {
        let parts = split_text(s, '|');
        let ghost f = split_on(s@, '|');
        assert(views_of(parts@) == f);
        if parts.len() != 8 {
            proof {
                assert forall|e: EventView|
                    e.storable() && s@ == #[trigger] record_text(e) implies false by {
                    lemma_record_reads_back(e);
                }
            }
            return None;
        }
        assert(parts[0]@ == f[0] && parts[1]@ == f[1] && parts[2]@ == f[2] && parts[3]@ == f[3]);
        assert(parts[4]@ == f[4] && parts[5]@ == f[5] && parts[6]@ == f[6] && parts[7]@ == f[7]);
        let id = parse_usize(parts[0].as_str());
        let start = Timestamp::parse_record_text(parts[2].as_str());
        let end = Timestamp::parse_record_text(parts[3].as_str());
        let completed = parse_bool(parts[7].as_str());
        proof {
            lemma_fields_of_record(s@, id, start, end, completed);
        }
        match (id, start, end, completed) {
            (Some(id), Some(start), Some(end), Some(completed)) => {
                let e = Event {
                    id,
                    name: parts[1].clone(),
                    start_time: start,
                    end_time: end,
                    priority: Priority::from_name(parts[4].as_str()),
                    reoccurance: Reoccurance::from_name(parts[5].as_str()),
                    note: parts[6].clone(),
                    completed,
                };
                Some(e)
            },
            _ => None,
        }
    }
}

pub open spec fn display_border() -> Seq<char> {
    " __________________________________________"@ + seq!['\n']
}

/// A line of the boxed rendering: its label, the value and a line feed.
pub open spec fn labelled_line(label: Seq<char>, value: Seq<char>) -> Seq<char> {
    label + value + seq!['\n']
}

/// The boxed, human-readable rendering of an event, one field per line.
pub open spec fn display_text(e: EventView) -> Seq<char> {
    display_border() + labelled_line("| Event ID: "@, decimal_text(e.id as nat)) + labelled_line(
        "| Event: "@,
        e.name,
    ) + labelled_line("| Start Time: "@, timestamp_text(e.start)) + labelled_line(
        "| End Time: "@,
        timestamp_text(e.end),
    ) + labelled_line("| Priority: "@, e.priority.name_text()) + labelled_line(
        "| Reoccurance: "@,
        e.reoccurance.name_text(),
    ) + labelled_line("| Note: "@, e.note) + labelled_line("| Completed: "@, bool_text(e.completed))
        + display_border()
}

fn push_labelled_line(out: &mut String, label: &str, value: &str)
    ensures
        final(out)@ == old(out)@ + labelled_line(label@, value@),
{
    let ghost start = out@;
    out.append(label);
    out.append(value);
    push_char(out, '\n');
    assert(out@ =~= start + labelled_line(label@, value@));
}

fn push_border(out: &mut String)
    ensures
        final(out)@ == old(out)@ + display_border(),
{
    let ghost start = out@;
    out.append(" __________________________________________");
    push_char(out, '\n');
    assert(out@ =~= start + display_border());
}

impl Event {
    /// The boxed rendering of every field, one per line, for a terminal.
    pub fn display(&self) -> (r: String)
        ensures
            r@ == display_text(self@),
    {
        let mut out = String::new();
        let ghost start = out@;
        push_border(&mut out);
        let mut id_text = String::new();
        push_decimal(&mut id_text, self.id as u64);
        push_labelled_line(&mut out, "| Event ID: ", id_text.as_str());
        push_labelled_line(&mut out, "| Event: ", self.name.as_str());
        let start_text = self.start_time.to_text();
        push_labelled_line(&mut out, "| Start Time: ", start_text.as_str());
        let end_text = self.end_time.to_text();
        push_labelled_line(&mut out, "| End Time: ", end_text.as_str());
        push_labelled_line(&mut out, "| Priority: ", self.priority.name());
        push_labelled_line(&mut out, "| Reoccurance: ", self.reoccurance.name());
        push_labelled_line(&mut out, "| Note: ", self.note.as_str());
        proof {
            reveal_strlit("true");
            reveal_strlit("false");
        }
        let completed_text = if self.completed {
            "true"
        } else {
            "false"
        };
        assert(completed_text@ =~= bool_text(self.completed));
        push_labelled_line(&mut out, "| Completed: ", completed_text);
        push_border(&mut out);
        assert(out@ =~= display_text(self@));
        out
    }
}

} // verus!
