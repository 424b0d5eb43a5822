//! The flight record: the route flown, how long it took, and notes on it.

use crate::elapsed::ElapsedTime;
use vstd::prelude::*;

verus! {

/// `chrono::NaiveDateTime`, a date and time of day without a time zone. A
/// record carries one, read as UTC, from where it is made to where it is
/// written; nothing here looks inside it.
#[verifier::external_type_specification]
#[verifier::external_body]
pub struct ExNaiveDateTime(chrono::NaiveDateTime);

/// An ASCII lower-case letter as its capital; any other character as it is.
pub open spec fn upper_char(c: char) -> char {
    if 'a' <= c && c <= 'z' {
        (c as int - 32) as char
    } else {
        c
    }
}

/// A text with its ASCII letters in upper case.
pub open spec fn ascii_upper(s: Seq<char>) -> Seq<char> {
    Seq::new(s.len(), |i: int| upper_char(s[i]))
}

/// The texts that the strings hold.
pub open spec fn texts(names: Seq<String>) -> Seq<Seq<char>> {
    Seq::new(names.len(), |i: int| names[i]@)
}

/// The route of a flight: the origin, then each waypoint in the order it was
/// given, all in upper case.
pub open spec fn route_of(origin: Seq<char>, waypoints: Seq<Seq<char>>) -> Seq<Seq<char>> {
    Seq::new(
        waypoints.len() + 1,
        |i: int|
            if i == 0 {
                ascii_upper(origin)
            } else {
                ascii_upper(waypoints[i - 1])
            },
    )
}

/// Whether a name holds no ASCII lower-case letter.
pub open spec fn is_upper(name: Seq<char>) -> bool {
    forall|i: int| 0 <= i < name.len() ==> !('a' <= #[trigger] name[i] && name[i] <= 'z')
}

/// One logged flight.
#[derive(Debug)]
pub struct Flight {
    /// When the record was made, in UTC.
    pub created: chrono::NaiveDateTime,
    /// Where the flight went: the origin first, the destination last.
    pub waypoints: Vec<String>,
    /// How long it took, in seconds.
    pub elapsed: i64,
    /// What the pilot had to say about it, if anything.
    pub notes: Option<String>,
}

/// What a flight record holds.
pub struct FlightView {
    pub created: chrono::NaiveDateTime,
    pub route: Seq<Seq<char>>,
    pub elapsed: int,
    pub notes: Option<Seq<char>>,
}

impl View for Flight {
    type V = FlightView;

    open spec fn view(&self) -> FlightView {
        FlightView {
            created: self.created,
            route: texts(self.waypoints@),
            elapsed: self.elapsed as int,
            notes: match self.notes {
                Some(text) => Some(text@),
                None => None,
            },
        }
    }
}

impl Clone for Flight {
    fn clone(&self) -> (copy: Flight)
        ensures
            copy@ == self@,
    {
        let mut waypoints: Vec<String> = Vec::new();
        let mut i: usize = 0;
        while i < self.waypoints.len()
            invariant
                i <= self.waypoints.len(),
                waypoints.len() == i,
                forall|k: int| 0 <= k < i ==> (#[trigger] waypoints@[k])@ == self.waypoints@[k]@,
            decreases self.waypoints.len() - i,
        {
            waypoints.push(self.waypoints[i].clone());
            i += 1;
        }
        let notes = match &self.notes {
            Some(text) => Some(text.clone()),
            None => None,
        };
        let copy = Flight { created: self.created, waypoints, elapsed: self.elapsed, notes };
        assert(copy@.route =~= self@.route);
        copy
    }
}

impl FlightView {
    /// A record as the log wants it: it has an origin, its names are in
    /// upper case, and notes are there only if they say something.
    pub open spec fn wf(self) -> bool {
        &&& self.route.len() >= 1
        &&& forall|i: int| 0 <= i < self.route.len() ==> is_upper(#[trigger] self.route[i])
        &&& self.notes matches Some(text) ==> text.len() > 0
    }
}

/// The name with its ASCII letters in upper case.
pub fn to_ascii_uppercase(name: &str) -> (upper: String)
    ensures
        upper@ == ascii_upper(name@),
{
    let mut upper = String::new();
    for c in it: name.chars()
        invariant
            it.seq() == name@,
            upper@ == ascii_upper(name@.take(it.index() as int)),
    {
        if c >= 'a' && c <= 'z' {
            upper.push((c as u8 - 32) as char);
        } else {
            upper.push(c);
        }
        assert(upper@ =~= ascii_upper(name@.take(it.index() + 1)));
    }
    assert(name@.take(name@.len() as int) =~= name@);
    upper
}

/// `chrono::Utc::now` reads the system clock, and `naive_utc` hands over the
/// date and time that it read, without the time zone. What comes back depends
/// on when the call is made, so nothing is claimed of it. The call gives up
/// where the system clock stands before 1970.
#[verifier::external_body]
fn utc_now() -> (now: chrono::NaiveDateTime) {
    chrono::Utc::now().naive_utc()
}

impl Flight {
    /// The record of a flight from `origin` over `waypoints`, made at
    /// `created`, without notes.
    pub fn at(
        created: chrono::NaiveDateTime,
        origin: &str,
        waypoints: &Vec<String>,
        elapsed: ElapsedTime,
    ) -> (flight: Flight)
        ensures
            flight@ == (FlightView {
                created,
                route: route_of(origin@, texts(waypoints@)),
                elapsed: elapsed.total_seconds(),
                notes: None,
            }),
            flight@.wf(),
    {
        let mut route: Vec<String> = Vec::new();
        route.push(to_ascii_uppercase(origin));
        let mut i: usize = 0;
        while i < waypoints.len()
            invariant
                i <= waypoints.len(),
                route.len() == i + 1,
                forall|k: int|
                    0 <= k <= i ==> (#[trigger] route@[k])@ == route_of(
                        origin@,
                        texts(waypoints@),
                    )[k],
            decreases waypoints.len() - i,
        {
            route.push(to_ascii_uppercase(waypoints[i].as_str()));
            i += 1;
        }
        let flight = Flight { created, waypoints: route, elapsed: elapsed.into_duration(), notes: None };
        assert(flight@.route =~= route_of(origin@, texts(waypoints@)));
        proof {
            lemma_route_is_upper(origin@, texts(waypoints@));
        }
        flight
    }

    /// The record of a flight from `origin` over `waypoints`, made now,
    /// without notes. All of it but the time is fixed by the arguments.
    pub fn new(origin: &str, waypoints: &Vec<String>, elapsed: ElapsedTime) -> (flight: Flight)
        ensures
            flight@.route == route_of(origin@, texts(waypoints@)),
            flight@.elapsed == elapsed.total_seconds(),
            flight@.notes is None,
            flight@.wf(),
    {
        Flight::at(utc_now(), origin, waypoints, elapsed)
    }

    /// Puts `notes` on the record, in place of any that it had. Notes that
    /// say something leave a good record good.
    pub fn add_notes(&mut self, notes: String)
        ensures
            final(self)@ == (FlightView { notes: Some(notes@), ..old(self)@ }),
            old(self)@.wf() && notes@.len() > 0 ==> final(self)@.wf(),
    {
        self.notes = Some(notes);
    }

    /// The record with `notes` on it if they say something. Empty notes are
    /// left out: the record then stays as it is, and holds no empty ones.
    pub fn with_notes(self, notes: String) -> (flight: Flight)
        ensures
            flight@ == if notes@.len() == 0 {
                self@
            } else {
                FlightView { notes: Some(notes@), ..self@ }
            },
            self@.wf() ==> flight@.wf(),
    {
        let mut flight = self;
        if !notes.as_str().is_empty() {
            flight.add_notes(notes);
        }
        flight
    }
}

/// Every name of a route is in upper case.
pub proof fn lemma_route_is_upper(origin: Seq<char>, waypoints: Seq<Seq<char>>)
    ensures
        route_of(origin, waypoints).len() == waypoints.len() + 1,
        forall|i: int|
            0 <= i < route_of(origin, waypoints).len() ==> is_upper(
                #[trigger] route_of(origin, waypoints)[i],
            ),
{
    assert forall|s: Seq<char>| is_upper(#[trigger] ascii_upper(s)) by {
        assert forall|i: int| 0 <= i < ascii_upper(s).len() implies !('a' <= #[trigger] ascii_upper(
            s,
        )[i] && ascii_upper(s)[i] <= 'z') by {
            let c = s[i];
            assert(ascii_upper(s)[i] == upper_char(c));
        }
    }
}

} // verus!
