use vstd::prelude::*;

use crate::event::{Event, EventView};
use crate::priority::Priority;
use crate::reoccurance::Reoccurance;
use crate::storage::{file_text, file_text_of};
use crate::timestamp::Timestamp;

verus! {

pub open spec fn views_of_events(events: Seq<Event>) -> Seq<EventView> {
    events.map_values(|e: Event| e@)
}

pub proof fn lemma_views_update(events: Seq<Event>, i: int, e: Event)
    requires
        0 <= i < events.len(),
    ensures
        views_of_events(events.update(i, e)) == views_of_events(events).update(i, e@),
{
    assert(views_of_events(events.update(i, e)) =~= views_of_events(events).update(i, e@));
}

/// The plain contents of a planner.
pub struct PlannerView {
    pub name: Seq<char>,
    pub events: Seq<EventView>,
    pub next_event_id: usize,
    pub file_name: Seq<char>,
}

impl PlannerView {
    /// Ids are unique, and every stored id is below the counter unless the counter is spent.
    pub open spec fn wf(self) -> bool {
        &&& forall|i: int, j: int|
            0 <= i < j < self.events.len() ==> #[trigger] self.events[i].id
                != #[trigger] self.events[j].id
        &&& forall|i: int|
            0 <= i < self.events.len() ==> #[trigger] self.events[i].id < self.next_event_id
                || self.next_event_id == usize::MAX
    }

    pub open spec fn has_id(self, id: usize) -> bool {
        exists|i: int| 0 <= i < self.events.len() && #[trigger] self.events[i].id == id
    }
}

/// The events, in order, whose start falls on the calendar day of `day`.
pub open spec fn events_on_day(events: Seq<EventView>, day: Timestamp) -> Seq<EventView>
    decreases events.len(),
{
    if events.len() == 0 {
        Seq::empty()
    } else {
        let before = events_on_day(events.drop_last(), day);
        if events.last().start.same_date(day) {
            before.push(events.last())
        } else {
            before
        }
    }
}

/// A change that `create_event` or `delete_event` makes to a planner.
pub enum PlannerStep {
    Created(usize),
    Deleted(usize),
}

/// `after` is what the step makes of `before`.
pub open spec fn step_holds(before: PlannerView, after: PlannerView, step: PlannerStep) -> bool {
    match step {
        PlannerStep::Created(id) => {
            &&& id == before.next_event_id
            &&& after.next_event_id == id + 1
            &&& after.events.len() == before.events.len() + 1
            &&& after.events.drop_last() == before.events
            &&& after.events.last().id == id
        },
        PlannerStep::Deleted(id) => {
            &&& after.next_event_id == before.next_event_id
            &&& after.events == before.events || exists|i: int|
                0 <= i < before.events.len() && before.events[i].id == id && after.events
                    == before.events.remove(i)
        },
    }
}

proof fn lemma_counter_grows(states: Seq<PlannerView>, steps: Seq<PlannerStep>, i: int, j: int)
    requires
        states.len() == steps.len() + 1,
        forall|k: int|
            0 <= k < steps.len() ==> step_holds(states[k], states[k + 1], #[trigger] steps[k]),
        0 <= i <= j < states.len(),
    ensures
        states[i].next_event_id <= states[j].next_event_id,
    decreases j - i,
{
    if i < j {
        lemma_counter_grows(states, steps, i, j - 1);
        assert(step_holds(states[j - 1], states[j], steps[j - 1]));
    }
}

/// Ids that `create_event` hands out grow strictly from one call to the next, whatever
/// deletions come between, and a new id belongs to no event that the planner held before.
pub proof fn lemma_created_ids_increase(states: Seq<PlannerView>, steps: Seq<PlannerStep>)
    requires
        states.len() == steps.len() + 1,
        forall|k: int| 0 <= k < states.len() ==> (#[trigger] states[k]).wf(),
        forall|k: int|
            0 <= k < steps.len() ==> step_holds(states[k], states[k + 1], #[trigger] steps[k]),
    ensures
        forall|i: int, j: int|
            0 <= i < j < steps.len() && #[trigger] steps[i] is Created && #[trigger] steps[j] is Created
                ==> steps[i]->Created_0 < steps[j]->Created_0,
        forall|j: int, k: int|
            0 <= k <= j < steps.len() && #[trigger] steps[j] is Created
                ==> !(#[trigger] states[k]).has_id(steps[j]->Created_0),
{
    assert forall|i: int, j: int|
        0 <= i < j < steps.len() && #[trigger] steps[i] is Created && #[trigger] steps[j] is Created
            implies steps[i]->Created_0 < steps[j]->Created_0 by {
        assert(step_holds(states[i], states[i + 1], steps[i]));
        assert(step_holds(states[j], states[j + 1], steps[j]));
        lemma_counter_grows(states, steps, i + 1, j);
    }
    assert forall|j: int, k: int|
        0 <= k <= j < steps.len() && #[trigger] steps[j] is Created
            implies !(#[trigger] states[k]).has_id(steps[j]->Created_0) by {
        let b = steps[j]->Created_0;
        assert(step_holds(states[j], states[j + 1], steps[j]));
        lemma_counter_grows(states, steps, k, j);
        assert(states[k].wf());
        if states[k].has_id(b) {
            let i = choose|i: int| 0 <= i < states[k].events.len() && #[trigger] states[k].events[i].id == b;
            assert(states[k].events[i].id < states[k].next_event_id);
        }
    }
}

/// The file a planner of this name keeps its events in.
pub open spec fn planner_file_name(name: Seq<char>) -> Seq<char> {
    "src/planners/"@ + name + ".txt"@
}

/// The events of one list, in the order they were added, with the next id to hand out.
pub struct Planner {
    name: String,
    events: Vec<Event>,
    next_event_id: usize,
    file_name: String,
}

impl View for Planner {
    type V = PlannerView;

    closed spec fn view(&self) -> PlannerView {
        PlannerView {
            name: self.name@,
            events: views_of_events(self.events@),
            next_event_id: self.next_event_id,
            file_name: self.file_name@,
        }
    }
}

/// The counter after an event with this id has been taken in.
pub open spec fn counter_after(next_event_id: usize, id: usize) -> usize {
    if id < next_event_id {
        next_event_id
    } else if id == usize::MAX {
        usize::MAX
    } else {
        (id + 1) as usize
    }
}

impl Planner {
    /// An empty planner whose file is `src/planners/<name>.txt`.
    pub fn new(name: String) -> (r: Planner)
        ensures
            r@ == (PlannerView {
                name: name@,
                events: Seq::empty(),
                next_event_id: 0,
                file_name: planner_file_name(name@),
            }),
            r@.wf(),
    {
        let mut file_name = String::from_str("src/planners/");
        file_name.append(name.as_str());
        file_name.append(".txt");
        let r = Planner { name, events: Vec::new(), next_event_id: 0, file_name };
        assert(views_of_events(r.events@) =~= Seq::empty());
        r
    }

    pub fn get_name(&self) -> (r: &String)
        ensures
            r@ == self@.name,
    {
        &self.name
    }

    pub fn get_file_name(&self) -> (r: &String)
        ensures
            r@ == self@.file_name,
    {
        &self.file_name
    }

    fn index_of(&self, id: usize) -> (r: Option<usize>)
        ensures
            match r {
                Some(i) => i < self@.events.len() && self@.events[i as int].id == id,
                None => !self@.has_id(id),
            },
    {
        let mut i: usize = 0;
        while i < self.events.len()
            invariant
                i <= self.events.len(),
                forall|j: int| 0 <= j < i ==> self@.events[j].id != id,
            decreases self.events.len() - i,
        {
            if *self.events[i].get_id() == id {
                return Some(i);
            }
            i = i + 1;
        }
        None
    }

    /// Takes in an event that already has its id, as when reading the file back. An event
    /// whose id is already present is not taken; the counter moves past the new id.
    pub fn add_event(&mut self, new_event: Event)
        requires
            old(self)@.wf(),
        ensures
            final(self)@.wf(),
            old(self)@.has_id(new_event@.id) ==> final(self)@ == old(self)@,
            !old(self)@.has_id(new_event@.id) ==> final(self)@ == (PlannerView {
                events: old(self)@.events.push(new_event@),
                next_event_id: counter_after(old(self)@.next_event_id, new_event@.id),
                ..old(self)@
            }),
    {
        let id = *new_event.get_id();
        if self.index_of(id).is_some() {
            return;
        }
        self.events.push(new_event);
        if id >= self.next_event_id {
            if id == usize::MAX {
                self.next_event_id = usize::MAX;
            } else {
                self.next_event_id = id + 1;
            }
        }
        assert(self@.events =~= old(self)@.events.push(new_event@));
    }

    /// Makes an event with the next id and stores it. Nothing changes when the ids are spent.
    pub fn create_event(
        &mut self,
        name: String,
        start_time: Timestamp,
        end_time: Timestamp,
        priority: Priority,
        reoccurance: Reoccurance,
        note: String,
        completed: bool,
    ) -> (r: Option<usize>)
        requires
            old(self)@.wf(),
        ensures
            final(self)@.wf(),
            old(self)@.next_event_id == usize::MAX <==> r is None,
            r is None ==> final(self)@ == old(self)@,
            r matches Some(id) ==> step_holds(old(self)@, final(self)@, PlannerStep::Created(id)),
            r matches Some(id) ==> {
                &&& id == old(self)@.next_event_id
                &&& !old(self)@.has_id(id)
                &&& final(self)@ == (PlannerView {
                    events: old(self)@.events.push(
                        EventView {
                            id,
                            name: name@,
                            start: start_time,
                            end: end_time,
                            priority,
                            reoccurance,
                            note: note@,
                            completed,
                        },
                    ),
                    next_event_id: (id + 1) as usize,
                    ..old(self)@
                })
            },
    {
        if self.next_event_id == usize::MAX {
            return None;
        }
        let id = self.next_event_id;
        let event = Event::new(
            id,
            name,
            start_time,
            end_time,
            priority,
            reoccurance,
            note,
            completed,
        );
        self.events.push(event);
        self.next_event_id = id + 1;
        assert(self@.events =~= old(self)@.events.push(event@));
        assert(self@.events.drop_last() =~= old(self)@.events);
        Some(id)
    }

    /// Removes the event with this id and hands it back; `None`, with nothing changed, when
    /// there is none.
    pub fn delete_event(&mut self, event_id: usize) -> (r: Option<Event>)
        requires
            old(self)@.wf(),
        ensures
            final(self)@.wf(),
            r is None <==> !old(self)@.has_id(event_id),
            r is None ==> final(self)@ == old(self)@,
            step_holds(old(self)@, final(self)@, PlannerStep::Deleted(event_id)),
            r matches Some(e) ==> exists|i: int|
                0 <= i < old(self)@.events.len() && old(self)@.events[i].id == event_id
                    && e@ == old(self)@.events[i] && final(self)@ == (PlannerView {
                    events: old(self)@.events.remove(i),
                    ..old(self)@
                }),
    {
        match self.index_of(event_id) {
            None => None,
            Some(i) => {
                let e = self.events.remove(i);
                assert(self@.events =~= old(self)@.events.remove(i as int));
                Some(e)
            },
        }
    }

    /// All events, in the order they were added.
    pub fn list_events(&self) -> (r: &Vec<Event>)
        ensures
            views_of_events(r@) == self@.events,
    {
        &self.events
    }

    /// The event with this id, to be edited in place.
    pub fn find_event_mut(&mut self, id: usize) -> (r: Option<&mut Event>)
        requires
            old(self)@.wf(),
        ensures
            r is None <==> !old(self)@.has_id(id),
            r is None ==> final(self)@ == old(self)@,
            r matches Some(e) ==> exists|i: int|
                0 <= i < old(self)@.events.len() && old(self)@.events[i].id == id && e@
                    == old(self)@.events[i] && final(self)@ == (PlannerView {
                    events: old(self)@.events.update(i, final(e)@),
                    ..old(self)@
                }),
            r matches Some(e) ==> (final(e)@.id == e@.id ==> final(self)@.wf()),
    {
        match self.index_of(id) {
            None => None,
            Some(i) => {
                let e = &mut self.events[i];
                proof {
                    lemma_views_update(old(self).events@, i as int, *final(e));
                }
                Some(e)
            },
        }
    }

    /// The events that start on the same calendar day as `today`, in store order.
    pub fn todays_events(&self, today: &Timestamp) -> (r: Vec<&Event>)
        ensures
            r@.map_values(|e: &Event| e@) == events_on_day(self@.events, *today),
    {
        let mut found: Vec<&Event> = Vec::new();
        let mut i: usize = 0;
        while i < self.events.len()
            invariant
                i <= self.events.len(),
                found@.map_values(|e: &Event| e@) == events_on_day(
                    self@.events.take(i as int),
                    *today,
                ),
            decreases self.events.len() - i,
        {
            let e = &self.events[i];
            assert(self@.events.take(i + 1).drop_last() =~= self@.events.take(i as int));
            if e.get_start_time().is_same_day(today) {
                found.push(e);
            }
            assert(found@.map_values(|e: &Event| e@) =~= events_on_day(
                self@.events.take(i + 1),
                *today,
            ));
            i = i + 1;
        }
        assert(self@.events.take(i as int) =~= self@.events);
        found
    }

    /// The text of this planner's file once it is written afresh from memory.
    pub fn events_file_text(&self) -> (r: String)
        ensures
            r@ == file_text(self@.events),
    {
        file_text_of(&self.events)
    }
}

} // verus!
