use event_planner::event::Event;
use event_planner::planner::Planner;
use event_planner::priority::Priority;
use event_planner::reoccurance::Reoccurance;
use event_planner::storage::{events_from_file_text, record_line, rewrite_excluding};
use event_planner::timestamp::Timestamp;

fn at(year: i32, month: u32, day: u32, hour: u32, minute: u32) -> Timestamp {
    Timestamp::new(year, month, day, hour, minute, 0).unwrap()
}

fn create(p: &mut Planner, name: &str, start: Timestamp) -> usize {
    p.create_event(
        name.to_string(),
        start,
        start,
        Priority::Medium,
        Reoccurance::Once,
        String::new(),
        false,
    )
    .unwrap()
}

#[test]
fn new_planner_is_empty_and_names_its_file() {
    let p = Planner::new("Planner".to_string());
    assert!(p.list_events().is_empty());
    assert_eq!(p.get_name(), "Planner");
    assert_eq!(p.get_file_name(), "src/planners/Planner.txt");
}

#[test]
fn created_ids_increase_and_are_not_reused() {
    let mut p = Planner::new("ids".to_string());
    let a = create(&mut p, "a", at(2024, 1, 1, 0, 0));
    let b = create(&mut p, "b", at(2024, 1, 1, 0, 0));
    assert_eq!((a, b), (0, 1));
    assert!(p.delete_event(b).is_some());
    let c = create(&mut p, "c", at(2024, 1, 1, 0, 0));
    assert_eq!(c, 2);
    assert!(p.delete_event(a).is_some());
    let d = create(&mut p, "d", at(2024, 1, 1, 0, 0));
    assert_eq!(d, 3);
    let ids: Vec<usize> = p.list_events().iter().map(|e| *e.get_id()).collect();
    assert_eq!(ids, vec![2, 3]);
}

#[test]
fn delete_of_absent_id_changes_nothing() {
    let mut p = Planner::new("absent".to_string());
    create(&mut p, "a", at(2024, 1, 1, 0, 0));
    let before = p.events_file_text();
    assert!(p.delete_event(5).is_none());
    assert_eq!(p.list_events().len(), 1);
    assert_eq!(p.events_file_text(), before);
    assert_eq!(rewrite_excluding(&before, 5), before);
}

#[test]
fn delete_removes_exactly_that_event() {
    let mut p = Planner::new("del".to_string());
    create(&mut p, "a", at(2024, 1, 1, 0, 0));
    create(&mut p, "b", at(2024, 1, 2, 0, 0));
    create(&mut p, "c", at(2024, 1, 3, 0, 0));
    let removed = p.delete_event(1).unwrap();
    assert_eq!(removed.get_name(), "b");
    let names: Vec<String> = p.list_events().iter().map(|e| e.get_name().clone()).collect();
    assert_eq!(names, vec!["a".to_string(), "c".to_string()]);
    assert!(p.delete_event(1).is_none());
}

#[test]
fn add_event_skips_a_taken_id_and_moves_the_counter() {
    let mut p = Planner::new("add".to_string());
    let e = Event::new(
        10,
        "loaded".to_string(),
        at(2024, 1, 1, 0, 0),
        at(2024, 1, 1, 1, 0),
        Priority::Low,
        Reoccurance::Daily,
        String::new(),
        true,
    );
    p.add_event(e.clone());
    p.add_event(e);
    assert_eq!(p.list_events().len(), 1);
    assert_eq!(create(&mut p, "next", at(2024, 1, 1, 0, 0)), 11);
}

#[test]
fn create_fails_once_ids_are_spent() {
    let mut p = Planner::new("full".to_string());
    p.add_event(Event::new(
        usize::MAX,
        "last".to_string(),
        at(2024, 1, 1, 0, 0),
        at(2024, 1, 1, 0, 0),
        Priority::Low,
        Reoccurance::Daily,
        String::new(),
        false,
    ));
    let r = p.create_event(
        "x".to_string(),
        at(2024, 1, 1, 0, 0),
        at(2024, 1, 1, 0, 0),
        Priority::Low,
        Reoccurance::Daily,
        String::new(),
        false,
    );
    assert_eq!(r, None);
    assert_eq!(p.list_events().len(), 1);
}

#[test]
fn find_event_mut_edits_in_place() {
    let mut p = Planner::new("edit".to_string());
    let id = create(&mut p, "old", at(2024, 1, 1, 0, 0));
    assert!(p.find_event_mut(id + 1).is_none());
    {
        let e = p.find_event_mut(id).unwrap();
        e.set_name("new".to_string());
        e.set_note("moved".to_string());
        e.set_start_time(at(2024, 2, 1, 8, 0));
        e.set_end_time(at(2024, 2, 1, 9, 0));
        e.set_reoccurance(Reoccurance::Monthly);
        e.set_completed(true);
    }
    let e = &p.list_events()[0];
    assert_eq!(e.get_name(), "new");
    assert_eq!(e.get_note(), "moved");
    assert_eq!(*e.get_start_time(), at(2024, 2, 1, 8, 0));
    assert_eq!(*e.get_end_time(), at(2024, 2, 1, 9, 0));
    assert_eq!(*e.get_reoccurance(), Reoccurance::Monthly);
    assert!(e.get_completed());
    assert_eq!(*e.get_id(), id);
}

#[test]
fn day_filter_keeps_same_date_in_order() {
    let mut p = Planner::new("days".to_string());
    create(&mut p, "first", at(2024, 1, 1, 0, 0));
    create(&mut p, "second", at(2024, 1, 1, 23, 59));
    create(&mut p, "third", at(2024, 1, 2, 0, 0));
    let today = at(2024, 1, 1, 12, 0);
    let found: Vec<String> = p.todays_events(&today).iter().map(|e| e.get_name().clone()).collect();
    assert_eq!(found, vec!["first".to_string(), "second".to_string()]);
    assert!(p.todays_events(&at(2024, 1, 3, 0, 0)).is_empty());
}

#[test]
fn load_skips_malformed_lines() {
    let text = "0|ok|2024-01-01 00:00:00|2024-01-01 01:00:00|High|Daily|n|false\n\
                1|short|2024-01-01 00:00:00|2024-01-01 01:00:00|High\n";
    let events = events_from_file_text(text);
    assert_eq!(events.len(), 1);
    assert_eq!(events[0].get_name(), "ok");
}

#[test]
fn load_of_empty_text_is_empty() {
    assert!(events_from_file_text("").is_empty());
    assert!(events_from_file_text("\n\n").is_empty());
}

#[test]
fn load_accepts_crlf_line_ends() {
    let text = "0|a|2024-01-01 00:00:00|2024-01-01 01:00:00|High|Daily|n|true\r\n\
                1|b|2024-01-01 00:00:00|2024-01-01 01:00:00|Low|Weekly|m|false";
    let events = events_from_file_text(text);
    assert_eq!(events.len(), 2);
    assert!(events[0].get_completed());
    assert_eq!(events[1].get_name(), "b");
}

#[test]
fn append_then_load_gives_back_the_event() {
    let e = Event::new(
        4,
        "appended".to_string(),
        at(2024, 5, 6, 7, 8),
        at(2024, 5, 6, 9, 0),
        Priority::High,
        Reoccurance::Weekly,
        "note".to_string(),
        true,
    );
    let mut file = String::from("garbage line\n");
    file.push_str(&record_line(&e));
    assert!(file.ends_with('\n'));
    let events = events_from_file_text(&file);
    assert_eq!(events, vec![e]);
}

#[test]
fn rewrite_after_deleting_the_middle_keeps_the_others() {
    let mut p = Planner::new("rewrite".to_string());
    let mut file = String::new();
    for name in ["one", "two", "three"] {
        let id = create(&mut p, name, at(2024, 1, 1, 0, 0));
        let e = p.list_events().iter().find(|e| *e.get_id() == id).unwrap();
        file.push_str(&record_line(e));
    }
    assert!(p.delete_event(1).is_some());
    let rewritten = rewrite_excluding(&file, 1);
    assert_eq!(rewritten, p.events_file_text());
    let loaded = events_from_file_text(&rewritten);
    let names: Vec<String> = loaded.iter().map(|e| e.get_name().clone()).collect();
    assert_eq!(names, vec!["one".to_string(), "three".to_string()]);
    let lines: Vec<&str> = file.lines().collect();
    assert_eq!(rewritten, format!("{}\n{}\n", lines[0], lines[2]));
}

#[test]
fn display_renders_a_box() {
    let e = Event::new(
        2,
        "Gym".to_string(),
        at(2024, 1, 1, 6, 0),
        at(2024, 1, 1, 7, 0),
        Priority::Low,
        Reoccurance::Once,
        "legs".to_string(),
        false,
    );
    let border = " __________________________________________";
    let expected = format!(
        "{b}\n| Event ID: 2\n| Event: Gym\n| Start Time: 2024-01-01 06:00:00\n| End Time: 2024-01-01 07:00:00\n| Priority: Low\n| Reoccurance: None\n| Note: legs\n| Completed: false\n{b}\n",
        b = border
    );
    assert_eq!(e.display(), expected);
}

#[test]
fn end_before_start_is_reported_not_refused() {
    let e = Event::new(
        0,
        "backwards".to_string(),
        at(2024, 1, 2, 0, 0),
        at(2024, 1, 1, 0, 0),
        Priority::Low,
        Reoccurance::Once,
        String::new(),
        false,
    );
    assert!(e.ends_before_start());
    let mut p = Planner::new("warn".to_string());
    assert!(p
        .create_event(
            "backwards".to_string(),
            at(2024, 1, 2, 0, 0),
            at(2024, 1, 1, 0, 0),
            Priority::Low,
            Reoccurance::Once,
            String::new(),
            false
        )
        .is_some());
    assert!(p.list_events()[0].ends_before_start());
    let ok = Event::new(
        0,
        "fine".to_string(),
        at(2024, 1, 1, 0, 0),
        at(2024, 1, 1, 0, 0),
        Priority::Low,
        Reoccurance::Once,
        String::new(),
        false,
    );
    assert!(!ok.ends_before_start());
}

#[test]
fn whole_file_reads_back_as_the_planner() {
    let mut p = Planner::new("whole".to_string());
    create(&mut p, "a", at(2024, 1, 1, 0, 0));
    create(&mut p, "b", at(2024, 6, 1, 12, 30));
    create(&mut p, "c", at(2025, 1, 1, 0, 0));
    let text = p.events_file_text();
    assert_eq!(text.lines().count(), 3);
    let loaded = events_from_file_text(&text);
    assert_eq!(&loaded, p.list_events());
}
