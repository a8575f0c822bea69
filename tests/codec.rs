use event_planner::event::Event;
use event_planner::priority::Priority;
use event_planner::reoccurance::Reoccurance;
use event_planner::text::parse_usize;
use event_planner::timestamp::Timestamp;

fn at(year: i32, month: u32, day: u32, hour: u32, minute: u32, second: u32) -> Timestamp {
    Timestamp::new(year, month, day, hour, minute, second).unwrap()
}

fn sample() -> Event {
    Event::new(
        7,
        "Dentist".to_string(),
        at(2024, 3, 5, 9, 30, 0),
        at(2024, 3, 5, 10, 15, 45),
        Priority::High,
        Reoccurance::Fortnightly,
        "bring card".to_string(),
        false,
    )
}

#[test]
fn encode_writes_eight_fields_in_order() {
    assert_eq!(
        sample().to_string(),
        "7|Dentist|2024-03-05 09:30:00|2024-03-05 10:15:45|High|Fortnightly|bring card|false"
    );
}

#[test]
fn round_trip_gives_back_the_event() {
    let e = sample();
    let decoded = Event::from_string(&e.to_string()).unwrap();
    assert_eq!(decoded, e);
}

#[test]
fn round_trip_with_empty_texts_and_every_variant() {
    let priorities = [Priority::High, Priority::Medium, Priority::Low];
    let recurrences = [
        Reoccurance::Yearly,
        Reoccurance::Monthly,
        Reoccurance::Fortnightly,
        Reoccurance::Weekly,
        Reoccurance::Daily,
        Reoccurance::Once,
    ];
    let mut id: usize = 0;
    for p in priorities.iter() {
        for r in recurrences.iter() {
            let e = Event::new(
                id,
                String::new(),
                at(1999, 12, 31, 23, 59, 59),
                at(2000, 1, 1, 0, 0, 0),
                *p,
                *r,
                String::new(),
                id % 2 == 0,
            );
            assert_eq!(Event::from_string(&e.to_string()), Some(e));
            id += 1;
        }
    }
}

#[test]
fn round_trip_keeps_years_outside_four_digits() {
    let e = Event::new(
        usize::MAX,
        "far".to_string(),
        at(-44, 3, 15, 12, 0, 0),
        at(12345, 6, 7, 8, 9, 10),
        Priority::Low,
        Reoccurance::Yearly,
        "x".to_string(),
        true,
    );
    let line = e.to_string();
    assert!(line.contains("|-0044-03-15 12:00:00|+12345-06-07 08:09:10|"));
    assert_eq!(Event::from_string(&line), Some(e));
}

#[test]
fn decode_rejects_wrong_field_count() {
    assert_eq!(Event::from_string("1|a|2024-01-01 00:00:00|2024-01-01 00:00:00|High"), None);
    assert_eq!(
        Event::from_string(
            "1|a|2024-01-01 00:00:00|2024-01-01 00:00:00|High|Daily|n|false|extra"
        ),
        None
    );
    assert_eq!(Event::from_string(""), None);
}

#[test]
fn decode_rejects_bad_id() {
    let tail = "|a|2024-01-01 00:00:00|2024-01-01 01:00:00|High|Daily|n|false";
    assert_eq!(Event::from_string(&format!("-1{}", tail)), None);
    assert_eq!(Event::from_string(&format!("x{}", tail)), None);
    assert_eq!(Event::from_string(&format!("{}", tail)), None);
    assert_eq!(Event::from_string(&format!("99999999999999999999999{}", tail)), None);
    let e = Event::from_string(&format!("+12{}", tail)).unwrap();
    assert_eq!(*e.get_id(), 12);
}

#[test]
fn decode_rejects_bad_times() {
    assert_eq!(
        Event::from_string("1|a|2024-13-01 00:00:00|2024-01-01 01:00:00|High|Daily|n|false"),
        None
    );
    assert_eq!(
        Event::from_string("1|a|2024-01-01 00:00:00|tomorrow|High|Daily|n|false"),
        None
    );
    assert_eq!(
        Event::from_string("1|a|2023-02-29 00:00:00|2024-01-01 01:00:00|High|Daily|n|false"),
        None
    );
}

#[test]
fn decode_rejects_bad_completed_flag() {
    assert_eq!(
        Event::from_string("1|a|2024-01-01 00:00:00|2024-01-01 01:00:00|High|Daily|n|yes"),
        None
    );
    assert_eq!(
        Event::from_string("1|a|2024-01-01 00:00:00|2024-01-01 01:00:00|High|Daily|n|True"),
        None
    );
}

#[test]
fn decode_is_lenient_and_case_insensitive_on_kinds() {
    let e = Event::from_string("3|a|2024-01-01 00:00:00|2024-01-01 01:00:00|hIGH|weekly|n|true")
        .unwrap();
    assert_eq!(*e.get_priority(), Priority::High);
    assert_eq!(*e.get_reoccurance(), Reoccurance::Weekly);
    assert!(e.get_completed());
    let e = Event::from_string("3|a|2024-01-01 00:00:00|2024-01-01 01:00:00|urgent|often|n|true")
        .unwrap();
    assert_eq!(*e.get_priority(), Priority::Medium);
    assert_eq!(*e.get_reoccurance(), Reoccurance::Once);
}

#[test]
fn decode_reads_legacy_fortnightly_spelling() {
    let e = Event::from_string("3|a|2024-01-01 00:00:00|2024-01-01 01:00:00|Low|Fornite|n|false")
        .unwrap();
    assert_eq!(*e.get_reoccurance(), Reoccurance::Fortnightly);
    assert!(e.to_string().contains("|Fortnightly|"));
    let e = Event::from_string("3|a|2024-01-01 00:00:00|2024-01-01 01:00:00|Low|FORNITE|n|false")
        .unwrap();
    assert_eq!(*e.get_reoccurance(), Reoccurance::Fortnightly);
}

#[test]
fn decode_keeps_free_text_fields() {
    let e = Event::from_string(
        "0|Team sync: Q1|2024-01-01 00:00:00|2024-01-01 01:00:00|Medium|None|room 4, floor 2|false",
    )
    .unwrap();
    assert_eq!(e.get_name(), "Team sync: Q1");
    assert_eq!(e.get_note(), "room 4, floor 2");
    assert_eq!(*e.get_start_time(), at(2024, 1, 1, 0, 0, 0));
    assert_eq!(*e.get_end_time(), at(2024, 1, 1, 1, 0, 0));
}

#[test]
fn pipe_in_name_breaks_the_record() {
    let e = Event::new(
        1,
        "a|b".to_string(),
        at(2024, 1, 1, 0, 0, 0),
        at(2024, 1, 1, 0, 0, 0),
        Priority::Low,
        Reoccurance::Daily,
        String::new(),
        false,
    );
    assert_eq!(Event::from_string(&e.to_string()), None);
}

#[test]
fn parse_usize_follows_std() {
    assert_eq!(parse_usize("0"), Some(0));
    assert_eq!(parse_usize("007"), Some(7));
    assert_eq!(parse_usize("+42"), Some(42));
    assert_eq!(parse_usize("18446744073709551615"), Some(usize::MAX));
    assert_eq!(parse_usize("18446744073709551616"), None);
    assert_eq!(parse_usize(""), None);
    assert_eq!(parse_usize("+"), None);
    assert_eq!(parse_usize("1 "), None);
    assert_eq!(parse_usize("-3"), None);
}

#[test]
fn round_trip_keeps_non_ascii_text() {
    let e = Event::new(
        12,
        "Café ☕ with Zoë".to_string(),
        at(2024, 2, 29, 8, 0, 0),
        at(2024, 2, 29, 9, 0, 0),
        Priority::Medium,
        Reoccurance::Monthly,
        "naïve\rnote".to_string(),
        true,
    );
    assert_eq!(Event::from_string(&e.to_string()), Some(e));
}
