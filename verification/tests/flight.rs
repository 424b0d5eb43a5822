use route::flight::to_ascii_uppercase;
use route::{notes_source, strip_comments, ElapsedTime, Flight, NotesSource};

fn noon() -> chrono::NaiveDateTime {
    chrono::NaiveDate::from_ymd_opt(2024, 3, 9).unwrap().and_hms_opt(12, 0, 0).unwrap()
}

fn names(list: &[&str]) -> Vec<String> {
    list.iter().map(|name| name.to_string()).collect()
}

#[test]
fn route_starts_at_the_origin() {
    let flight = Flight::at(noon(), "jfk", &names(&["lax"]), ElapsedTime { hours: 5, minutes: 40 });
    assert_eq!(flight.waypoints, names(&["JFK", "LAX"]));
}

#[test]
fn waypoints_keep_their_order() {
    let flight = Flight::at(
        noon(),
        "kpao",
        &names(&["ksql", "khaf", "koak", "kpao"]),
        ElapsedTime { hours: 1, minutes: 12 },
    );
    assert_eq!(flight.waypoints, names(&["KPAO", "KSQL", "KHAF", "KOAK", "KPAO"]));
}

#[test]
fn a_record_without_waypoints_holds_the_origin() {
    let flight = Flight::at(noon(), "jfk", &Vec::new(), ElapsedTime { hours: 0, minutes: 0 });
    assert_eq!(flight.waypoints, names(&["JFK"]));
}

#[test]
fn a_new_record_has_no_notes() {
    let flight = Flight::at(noon(), "jfk", &names(&["lax"]), ElapsedTime { hours: 5, minutes: 40 });
    assert_eq!(flight.notes, None);
}

#[test]
fn a_new_record_keeps_its_time() {
    let flight = Flight::at(noon(), "jfk", &names(&["lax"]), ElapsedTime { hours: 5, minutes: 40 });
    assert_eq!(flight.created, noon());
    let later = noon() + chrono::Duration::seconds(90);
    let flight = Flight::at(later, "jfk", &names(&["lax"]), ElapsedTime { hours: 5, minutes: 40 });
    assert_eq!(flight.created, later);
}

#[test]
fn elapsed_is_stored_in_seconds() {
    let flight = Flight::at(noon(), "jfk", &names(&["lax"]), ElapsedTime { hours: 2, minutes: 30 });
    assert_eq!(flight.elapsed, 9000);
    let flight = Flight::at(noon(), "jfk", &names(&["lax"]), ElapsedTime { hours: 2, minutes: 75 });
    assert_eq!(flight.elapsed, 11700);
    let flight = Flight::at(noon(), "jfk", &names(&["lax"]), ElapsedTime { hours: 0, minutes: -5 });
    assert_eq!(flight.elapsed, -300);
}

#[test]
fn upper_case_of_ascii_letters() {
    assert_eq!(to_ascii_uppercase("jfk"), "JFK");
    assert_eq!(to_ascii_uppercase("JfK"), "JFK");
    assert_eq!(to_ascii_uppercase("az AZ"), "AZ AZ");
    assert_eq!(to_ascii_uppercase(""), "");
    assert_eq!(to_ascii_uppercase("l-23/x_9"), "L-23/X_9");
    assert_eq!(to_ascii_uppercase("`{@["), "`{@[");
}

#[test]
fn upper_case_leaves_other_letters() {
    assert_eq!(to_ascii_uppercase("z\u{fc}rich"), "Z\u{fc}RICH");
    assert_eq!(to_ascii_uppercase("\u{df}\u{e9}\u{3b1}"), "\u{df}\u{e9}\u{3b1}");
}

#[test]
fn upper_case_agrees_with_std() {
    let mut all = String::new();
    for code in 0..0x250_u32 {
        if let Some(c) = char::from_u32(code) {
            all.push(c);
        }
    }
    assert_eq!(to_ascii_uppercase(&all), all.to_ascii_uppercase());
}

#[test]
fn notes_are_put_on_the_record() {
    let mut flight = Flight::at(noon(), "jfk", &names(&["lax"]), ElapsedTime { hours: 5, minutes: 40 });
    flight.add_notes("bumpy".to_string());
    assert_eq!(flight.notes, Some("bumpy".to_string()));
    assert_eq!(flight.waypoints, names(&["JFK", "LAX"]));
    assert_eq!(flight.elapsed, 20400);
    assert_eq!(flight.created, noon());
    flight.add_notes("smooth".to_string());
    assert_eq!(flight.notes, Some("smooth".to_string()));
}

#[test]
fn empty_notes_are_left_out() {
    let flight = Flight::at(noon(), "jfk", &names(&["lax"]), ElapsedTime { hours: 2, minutes: 30 })
        .with_notes(String::new());
    assert_eq!(flight.notes, None);
    assert_eq!(flight.waypoints, names(&["JFK", "LAX"]));
    assert_eq!(flight.elapsed, 9000);
}

#[test]
fn notes_that_say_something_are_kept() {
    let flight = Flight::at(noon(), "jfk", &names(&["lax"]), ElapsedTime { hours: 2, minutes: 30 })
        .with_notes("hello".to_string());
    assert_eq!(flight.notes, Some("hello".to_string()));
    let flight = Flight::at(noon(), "jfk", &names(&["lax"]), ElapsedTime { hours: 2, minutes: 30 })
        .with_notes(" ".to_string());
    assert_eq!(flight.notes, Some(" ".to_string()));
}

#[test]
fn inline_notes_make_the_record_without_an_editor() {
    let record = |given: &str| {
        let notes = match notes_source(Some(given.to_string())) {
            NotesSource::Inline(text) => text,
            NotesSource::Editor => panic!("the editor was asked for"),
        };
        Flight::at(noon(), "jfk", &names(&["lax"]), ElapsedTime { hours: 1, minutes: 0 }).with_notes(notes)
    };
    assert_eq!(record("").notes, None);
    assert_eq!(record("hello").notes, Some("hello".to_string()));
}

#[test]
fn an_unedited_template_makes_a_record_without_notes() {
    let left_by_editor = "# Notes on the flight go below.\n# Lines with a leading '#' are dropped.\n";
    let notes = match notes_source(None) {
        NotesSource::Inline(_) => panic!("nothing was given"),
        NotesSource::Editor => strip_comments(left_by_editor.to_string()),
    };
    let flight =
        Flight::at(noon(), "jfk", &names(&["lax"]), ElapsedTime { hours: 1, minutes: 0 }).with_notes(notes);
    assert_eq!(flight.notes, None);
}

#[test]
fn from_the_command_line_to_the_record() {
    let elapsed = ElapsedTime::from_str("2+30").unwrap();
    let notes = match notes_source(Some("test".to_string())) {
        NotesSource::Inline(text) => text,
        NotesSource::Editor => panic!("the editor was asked for"),
    };
    let flight = Flight::at(noon(), "jfk", &names(&["lax"]), elapsed).with_notes(notes);
    assert_eq!(flight.waypoints, vec!["JFK".to_string(), "LAX".to_string()]);
    assert_eq!(flight.elapsed, 9000);
    assert_eq!(chrono::Duration::seconds(flight.elapsed), chrono::Duration::hours(2) + chrono::Duration::minutes(30));
    assert_eq!(flight.notes, Some("test".to_string()));
    assert_eq!(flight.created, noon());
}

#[test]
fn a_copy_holds_the_same_record() {
    let flight = Flight::at(noon(), "jfk", &names(&["ord", "lax"]), ElapsedTime { hours: 6, minutes: 5 })
        .with_notes("via Chicago".to_string());
    let copy = flight.clone();
    assert_eq!(copy.created, flight.created);
    assert_eq!(copy.waypoints, flight.waypoints);
    assert_eq!(copy.elapsed, flight.elapsed);
    assert_eq!(copy.notes, flight.notes);
}

#[test]
fn a_record_made_now_holds_the_flight() {
    let flight = Flight::new("jfk", &names(&["ord", "lax"]), ElapsedTime { hours: 2, minutes: 75 });
    assert_eq!(flight.waypoints, names(&["JFK", "ORD", "LAX"]));
    assert_eq!(flight.elapsed, 11700);
    assert_eq!(flight.notes, None);
}

#[test]
fn a_record_made_now_is_dated_now() {
    let before = chrono::Utc::now().naive_utc();
    let flight = Flight::new("jfk", &names(&["lax"]), ElapsedTime { hours: 1, minutes: 0 });
    let after = chrono::Utc::now().naive_utc();
    assert!(before <= flight.created);
    assert!(flight.created <= after);
}

#[test]
fn from_the_command_line_to_a_record_made_now() {
    let elapsed = ElapsedTime::from_str("2+30").unwrap();
    let flight = Flight::new("jfk", &names(&["lax"]), elapsed).with_notes("test".to_string());
    assert_eq!(flight.waypoints, names(&["JFK", "LAX"]));
    assert_eq!(flight.elapsed, 9000);
    assert_eq!(flight.notes, Some("test".to_string()));
}

#[test]
fn notes_replace_nothing_when_they_are_empty() {
    let mut flight = Flight::at(noon(), "jfk", &names(&["lax"]), ElapsedTime { hours: 1, minutes: 0 });
    flight.add_notes("first".to_string());
    let flight = flight.with_notes(String::new());
    assert_eq!(flight.notes, Some("first".to_string()));
    let flight = flight.with_notes("second".to_string());
    assert_eq!(flight.notes, Some("second".to_string()));
}
