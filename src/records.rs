//! The records that the public data feed and the user's account supply, as
//! the logic reads them.

use vstd::prelude::*;
use vstd::string::StrSliceExecFns;

use crate::ident::{extract_system_from_planet, system_of_planet};
use crate::idset::{distinct_ids, has_id, insert_id};

verus! {

/// A connection declared by a system record, naming its target by record ID.
#[derive(Clone, Debug)]
pub struct SystemConnection {
    pub system_connection_id: String,
    pub connecting_id: String,
}

/// A star system record of the public feed. Its position is carried beside
/// it by the caller, in the same order.
#[derive(Clone, Debug)]
pub struct StarSystem {
    pub system_id: String,
    pub name: String,
    pub natural_id: String,
    pub star_type: String,
    pub sector_id: String,
    pub sub_sector_id: String,
    pub connections: Vec<SystemConnection>,
    pub user_name_submitted: String,
    pub timestamp: String,
}

/// A commodity exchange station of the public feed.
#[derive(Clone, Debug)]
pub struct ExchangeStation {
    pub station_id: String,
    pub natural_id: String,
    pub name: String,
    pub system_id: String,
    pub system_natural_id: String,
    pub system_name: String,
    pub comex_code: String,
    pub comex_name: String,
}

/// A site (base) of the user.
#[derive(Clone, Debug)]
pub struct Site {
    pub site_id: String,
    pub planet_id: String,
    pub planet_identifier: Option<String>,
    pub planet_name: Option<String>,
    pub planet_founded_epoch_ms: Option<i64>,
    pub invested_permits: Option<i32>,
    pub maximum_permits: Option<i32>,
    pub user_name_submitted: Option<String>,
    pub timestamp: Option<String>,
}

/// The answer to a login.
#[derive(Clone, Debug)]
pub struct AuthResponse {
    pub auth_token: String,
    pub expiry: Option<String>,
}

/// One line of a flight segment's origin or destination address.
#[derive(Clone, Debug, Default)]
pub struct FlightLine {
    pub line_type: Option<String>,
    pub line_id: Option<String>,
    pub line_natural_id: Option<String>,
    pub line_name: Option<String>,
}

/// One segment of a flight.
#[derive(Clone, Debug, Default)]
pub struct FlightSegment {
    pub segment_type: Option<String>,
    pub origin: Option<String>,
    pub destination: Option<String>,
    pub origin_lines: Option<Vec<FlightLine>>,
    pub destination_lines: Option<Vec<FlightLine>>,
}

/// A flight of one of the user's ships.
#[derive(Clone, Debug, Default)]
pub struct Flight {
    pub flight_id: Option<String>,
    pub ship_id: Option<String>,
    pub origin: Option<String>,
    pub destination: Option<String>,
    pub segments: Option<Vec<FlightSegment>>,
    pub departure_time_epoch_ms: Option<i64>,
    pub arrival_time_epoch_ms: Option<i64>,
    pub current_segment_index: Option<i32>,
}

/// The view of an optional string.
pub open spec fn opt_view(o: Option<String>) -> Option<Seq<char>> {
    match o {
        Some(s) => Some(s@),
        None => None,
    }
}

/// The type tag of an address line that names a star system.
pub open spec fn system_tag() -> Seq<char> {
    seq!['s', 'y', 's', 't', 'e', 'm']
}

/// The line's type tag is `system`.
pub open spec fn is_system_line(l: FlightLine) -> bool {
    &&& l.line_type is Some
    &&& l.line_type->0@ == system_tag()
}

/// The natural ID of the first line tagged `system`, if that line has one.
pub open spec fn system_id_in(lines: Seq<FlightLine>) -> Option<Seq<char>>
    decreases lines.len(),
{
    if lines.len() == 0 {
        None
    } else if is_system_line(lines[0]) {
        opt_view(lines[0].line_natural_id)
    } else {
        system_id_in(lines.drop_first())
    }
}

/// The origin system of a flight: read from the first segment's origin lines.
pub open spec fn origin_of(f: Flight) -> Option<Seq<char>> {
    match f.segments {
        Some(segs) => if segs@.len() > 0 {
            match segs@[0].origin_lines {
                Some(lines) => system_id_in(lines@),
                None => None,
            }
        } else {
            None
        },
        None => None,
    }
}

/// The destination system of a flight: read from the last segment's
/// destination lines.
pub open spec fn destination_of(f: Flight) -> Option<Seq<char>> {
    match f.segments {
        Some(segs) => if segs@.len() > 0 {
            match segs@.last().destination_lines {
                Some(lines) => system_id_in(lines@),
                None => None,
            }
        } else {
            None
        },
        None => None,
    }
}

fn clone_opt(o: &Option<String>) -> (r: Option<String>)
    ensures
        r == *o,
{
    match o {
        Some(s) => Some(s.clone()),
        None => None,
    }
}

fn is_system_line_exec(l: &FlightLine) -> (r: bool)
    ensures
        r == is_system_line(*l),
{
    match &l.line_type {
        Some(t) => {
            let tag = "system".to_owned();
            proof {
                reveal_strlit("system");
                assert(tag@ =~= system_tag());
            }
            *t == tag
        },
        None => false,
    }
}

fn system_id_of_lines(lines: &Vec<FlightLine>) -> (r: Option<String>)
    ensures
        opt_view(r) == system_id_in(lines@),
{
    let n = lines.len();
    let mut i: usize = 0;
    assert(lines@.subrange(0, n as int) =~= lines@);
    while i < n
        invariant
            n == lines@.len(),
            i <= n,
            system_id_in(lines@) == system_id_in(lines@.subrange(i as int, n as int)),
        decreases n - i,
    {
        let ghost rest = lines@.subrange(i as int, n as int);
        assert(rest[0] == lines@[i as int]);
        assert(rest.drop_first() =~= lines@.subrange(i as int + 1, n as int));
        if is_system_line_exec(&lines[i]) {
            return clone_opt(&lines[i].line_natural_id);
        }
        i = i + 1;
    }
    None
}

impl Flight {
    /// The natural ID of the system the flight starts from: the first line
    /// tagged `system` among the first segment's origin lines.
    pub fn origin_system_natural_id(&self) -> (r: Option<String>)
        ensures
            opt_view(r) == origin_of(*self),
    {
        match &self.segments {
            Some(segs) => {
                if segs.len() == 0 {
                    return None;
                }
                match &segs[0].origin_lines {
                    Some(lines) => system_id_of_lines(lines),
                    None => None,
                }
            },
            None => None,
        }
    }

    /// The natural ID of the system the flight ends in: the first line
    /// tagged `system` among the last segment's destination lines.
    pub fn destination_system_natural_id(&self) -> (r: Option<String>)
        ensures
            opt_view(r) == destination_of(*self),
    {
        match &self.segments {
            Some(segs) => {
                if segs.len() == 0 {
                    return None;
                }
                match &segs[segs.len() - 1].destination_lines {
                    Some(lines) => system_id_of_lines(lines),
                    None => None,
                }
            },
            None => None,
        }
    }
}

/// A flight reduced to its two end systems.
#[derive(Clone, Debug)]
pub struct FlightPath {
    pub origin_system_id: String,
    pub destination_system_id: String,
    pub ship_registration: Option<String>,
    pub is_in_system: bool,
}

/// What a flight path stands for.
pub ghost struct FlightPathView {
    pub origin: Seq<char>,
    pub destination: Seq<char>,
    pub ship: Option<Seq<char>>,
    pub in_system: bool,
}

impl View for FlightPath {
    type V = FlightPathView;

    open spec fn view(&self) -> FlightPathView {
        FlightPathView {
            origin: self.origin_system_id@,
            destination: self.destination_system_id@,
            ship: opt_view(self.ship_registration),
            in_system: self.is_in_system,
        }
    }
}

/// The path of a flight: present when both ends can be read, and in-system
/// when they are the same system.
pub open spec fn path_of(f: Flight) -> Option<FlightPathView> {
    match (origin_of(f), destination_of(f)) {
        (Some(o), Some(d)) => Some(
            FlightPathView { origin: o, destination: d, ship: opt_view(f.ship_id), in_system: o == d },
        ),
        _ => None,
    }
}

/// The view of an optional flight path.
pub open spec fn opt_path_view(p: Option<FlightPath>) -> Option<FlightPathView> {
    match p {
        Some(p) => Some(p@),
        None => None,
    }
}

/// The paths of the flights whose two ends can be read, in order.
pub open spec fn paths_of(fs: Seq<Flight>) -> Seq<FlightPathView>
    decreases fs.len(),
{
    if fs.len() == 0 {
        Seq::empty()
    } else {
        let rest = paths_of(fs.drop_last());
        match path_of(fs.last()) {
            Some(p) => rest.push(p),
            None => rest,
        }
    }
}

impl FlightPath {
    /// Classifies a flight: `None` when either end system cannot be read;
    /// otherwise its two ends, its ship, and whether they are one system.
    pub fn from_flight(flight: &Flight) -> (r: Option<FlightPath>)
        ensures
            opt_path_view(r) == path_of(*flight),
    {
        let origin = flight.origin_system_natural_id();
        let dest = flight.destination_system_natural_id();
        match (origin, dest) {
            (Some(o), Some(d)) => {
                let same = o == d;
                Some(
                    FlightPath {
                        origin_system_id: o,
                        destination_system_id: d,
                        ship_registration: clone_opt(&flight.ship_id),
                        is_in_system: same,
                    },
                )
            },
            _ => None,
        }
    }
}

/// A docked ship at `k`: some ship location is non-empty and lies in system `k`.
pub open spec fn ship_at(locations: Seq<Option<String>>, k: Seq<char>) -> bool {
    exists|i: int|
        0 <= i < locations.len() && (#[trigger] locations[i]) is Some && locations[i]->0@.len() > 0
            && system_of_planet(locations[i]->0@) == k
}

/// A base at `k`: some site's planet lies in system `k`.
pub open spec fn base_at(sites: Seq<Site>, k: Seq<char>) -> bool {
    exists|i: int|
        0 <= i < sites.len() && (#[trigger] sites[i]).planet_identifier is Some && system_of_planet(
            sites[i].planet_identifier->0@,
        ) == k
}

/// The systems where the user's ships are docked, from the ships' locations
/// (a ship in flight has no location, or an empty one).
pub fn ship_systems(locations: &Vec<Option<String>>) -> (r: Vec<String>)
    ensures
        distinct_ids(r@),
        forall|k: Seq<char>| has_id(r@, k) <==> ship_at(locations@, k),
{
    let mut r: Vec<String> = Vec::new();
    let mut i: usize = 0;
    while i < locations.len()
        invariant
            i <= locations@.len(),
            distinct_ids(r@),
            forall|k: Seq<char>| has_id(r@, k) <==> ship_at(locations@.subrange(0, i as int), k),
        decreases locations@.len() - i,
    {
        let ghost before = r@;
        match &locations[i] {
            Some(loc) => {
                if loc.as_str().unicode_len() > 0 {
                    let sys = extract_system_from_planet(loc.as_str());
                    insert_id(&mut r, sys);
                }
            },
            None => {},
        }
        proof {
            let pre = locations@.subrange(0, i as int);
            let post = locations@.subrange(0, i as int + 1);
            assert forall|k: Seq<char>| has_id(r@, k) <==> ship_at(post, k) by {
                if ship_at(pre, k) {
                    let j = choose|j: int|
                        0 <= j < pre.len() && (#[trigger] pre[j]) is Some && pre[j]->0@.len() > 0
                            && system_of_planet(pre[j]->0@) == k;
                    assert(post[j] == pre[j]);
                }
                if ship_at(post, k) {
                    let j = choose|j: int|
                        0 <= j < post.len() && (#[trigger] post[j]) is Some && post[j]->0@.len() > 0
                            && system_of_planet(post[j]->0@) == k;
                    if j < i {
                        assert(post[j] == pre[j]);
                    }
                }
                assert(post[i as int] == locations@[i as int]);
            }
        }
        i = i + 1;
    }
    assert(locations@.subrange(0, locations@.len() as int) =~= locations@);
    r
}

/// The systems of the user's bases, from the sites' planet identifiers.
pub fn base_systems(sites: &Vec<Site>) -> (r: Vec<String>)
    ensures
        distinct_ids(r@),
        forall|k: Seq<char>| has_id(r@, k) <==> base_at(sites@, k),
{
    let mut r: Vec<String> = Vec::new();
    let mut i: usize = 0;
    while i < sites.len()
        invariant
            i <= sites@.len(),
            distinct_ids(r@),
            forall|k: Seq<char>| has_id(r@, k) <==> base_at(sites@.subrange(0, i as int), k),
        decreases sites@.len() - i,
    {
        match &sites[i].planet_identifier {
            Some(p) => {
                let sys = extract_system_from_planet(p.as_str());
                insert_id(&mut r, sys);
            },
            None => {},
        }
        proof {
            let pre = sites@.subrange(0, i as int);
            let post = sites@.subrange(0, i as int + 1);
            assert forall|k: Seq<char>| has_id(r@, k) <==> base_at(post, k) by {
                if base_at(pre, k) {
                    let j = choose|j: int|
                        0 <= j < pre.len() && (#[trigger] pre[j]).planet_identifier is Some
                            && system_of_planet(pre[j].planet_identifier->0@) == k;
                    assert(post[j] == pre[j]);
                }
                if base_at(post, k) {
                    let j = choose|j: int|
                        0 <= j < post.len() && (#[trigger] post[j]).planet_identifier is Some
                            && system_of_planet(post[j].planet_identifier->0@) == k;
                    if j < i {
                        assert(post[j] == pre[j]);
                    }
                }
                assert(post[i as int] == sites@[i as int]);
            }
        }
        i = i + 1;
    }
    assert(sites@.subrange(0, sites@.len() as int) =~= sites@);
    r
}

/// The paths of the flights whose two ends can be read, in flight order.
pub fn flight_paths(flights: &Vec<Flight>) -> (r: Vec<FlightPath>)
    ensures
        r@.map_values(|p: FlightPath| p@) == paths_of(flights@),
{
    let mut r: Vec<FlightPath> = Vec::new();
    let mut i: usize = 0;
    while i < flights.len()
        invariant
            i <= flights@.len(),
            r@.map_values(|p: FlightPath| p@) == paths_of(flights@.subrange(0, i as int)),
        decreases flights@.len() - i,
    {
        let ghost pre = flights@.subrange(0, i as int);
        let ghost post = flights@.subrange(0, i as int + 1);
        assert(post.drop_last() =~= pre);
        assert(post.last() == flights@[i as int]);
        let p = FlightPath::from_flight(&flights[i]);
        match p {
            Some(p) => {
                r.push(p);
                assert(r@.map_values(|p: FlightPath| p@) =~= paths_of(post));
            },
            None => {},
        }
        i = i + 1;
    }
    assert(flights@.subrange(0, flights@.len() as int) =~= flights@);
    r
}

/// What the map knows of the logged-in user: where the ships are docked,
/// where the bases are, and the active flights.
#[derive(Clone, Debug, Default)]
pub struct UserData {
    pub username: String,
    pub ship_system_ids: Vec<String>,
    pub base_system_ids: Vec<String>,
    pub flight_paths: Vec<FlightPath>,
}

impl UserData {
    /// The system sets hold no string twice.
    pub open spec fn wf(&self) -> bool {
        distinct_ids(self.ship_system_ids@) && distinct_ids(self.base_system_ids@)
    }

    /// Gathers the user's data from the ship locations, flights and sites
    /// that were fetched (an empty list where a fetch failed).
    pub fn from_records(
        username: String,
        ship_locations: &Vec<Option<String>>,
        flights: &Vec<Flight>,
        sites: &Vec<Site>,
    ) -> (r: UserData)
        ensures
            r.wf(),
            r.username == username,
            forall|k: Seq<char>| has_id(r.ship_system_ids@, k) <==> ship_at(ship_locations@, k),
            forall|k: Seq<char>| has_id(r.base_system_ids@, k) <==> base_at(sites@, k),
            r.flight_paths@.map_values(|p: FlightPath| p@) == paths_of(flights@),
    {
        let ships = ship_systems(ship_locations);
        let paths = flight_paths(flights);
        let bases = base_systems(sites);
        UserData {
            username,
            ship_system_ids: ships,
            base_system_ids: bases,
            flight_paths: paths,
        }
    }
}

} // verus!
