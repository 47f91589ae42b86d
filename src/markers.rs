//! Per-system markers: commodity exchanges, the user's bases and the user's
//! ships, stacked in a fixed order (exchange outermost, ship innermost).

use vstd::prelude::*;

use crate::idset::{distinct_ids, has_id, insert_id};
use crate::records::{ExchangeStation, FlightPath, UserData};

verus! {

/// The kinds of marker a system can carry, in ring order from the outside in.
#[derive(Clone, Copy, Debug, PartialEq, Eq, Structural)]
pub enum SystemMarker {
    CommodityExchange,
    Base,
    Ship,
}

/// Display colour of each marker kind, as red, green and blue.
pub open spec fn marker_rgb(m: SystemMarker) -> (u8, u8, u8) {
    match m {
        SystemMarker::CommodityExchange => (255, 100, 100),
        SystemMarker::Base => (100, 255, 100),
        SystemMarker::Ship => (100, 150, 255),
    }
}

impl SystemMarker {
    /// The display colour of this marker kind as red, green and blue.
    pub fn rgb(&self) -> (r: (u8, u8, u8))
        ensures
            r == marker_rgb(*self),
    {
        match self {
            SystemMarker::CommodityExchange => (255, 100, 100),
            SystemMarker::Base => (100, 255, 100),
            SystemMarker::Ship => (100, 150, 255),
        }
    }
}

/// The exchange stations known so far, as (system natural ID, exchange code)
/// in the order they arrived; a later entry for a system replaces the code
/// of an earlier one.
#[derive(Clone, Debug)]
pub struct ExchangeIndex {
    pub entries: Vec<(String, String)>,
}

impl View for ExchangeIndex {
    type V = Seq<(Seq<char>, Seq<char>)>;

    open spec fn view(&self) -> Seq<(Seq<char>, Seq<char>)> {
        self.entries@.map_values(|e: (String, String)| (e.0@, e.1@))
    }
}

/// The entry that a station contributes.
pub open spec fn station_entry(s: ExchangeStation) -> (Seq<char>, Seq<char>) {
    (s.system_natural_id@, s.comex_code@)
}

/// Some exchange lies in system `k`.
pub open spec fn exchange_at(x: Seq<(Seq<char>, Seq<char>)>, k: Seq<char>) -> bool {
    exists|j: int| 0 <= j < x.len() && (#[trigger] x[j]).0 == k
}

/// The code of the exchange in system `k`: that of its last entry.
pub open spec fn exchange_code(x: Seq<(Seq<char>, Seq<char>)>, k: Seq<char>) -> Option<Seq<char>>
    decreases x.len(),
{
    if x.len() == 0 {
        None
    } else if x.last().0 == k {
        Some(x.last().1)
    } else {
        exchange_code(x.drop_last(), k)
    }
}

impl ExchangeIndex {
    /// An index with no station.
    pub fn new() -> (r: ExchangeIndex)
        ensures
            r@ == Seq::<(Seq<char>, Seq<char>)>::empty(),
    {
        let r = ExchangeIndex { entries: Vec::new() };
        assert(r@ =~= Seq::<(Seq<char>, Seq<char>)>::empty());
        r
    }

    /// Records the system and exchange code of each station, in order.
    pub fn add_stations(&mut self, stations: &Vec<ExchangeStation>)
        ensures
            final(self)@ == old(self)@ + stations@.map_values(|s: ExchangeStation| station_entry(s)),
    {
        let ghost start = self@;
        let mut i: usize = 0;
        while i < stations.len()
            invariant
                i <= stations@.len(),
                self@ == start + stations@.subrange(0, i as int).map_values(
                    |s: ExchangeStation| station_entry(s),
                ),
            decreases stations@.len() - i,
        {
            let st = &stations[i];
            let ghost before = self@;
            self.entries.push((st.system_natural_id.clone(), st.comex_code.clone()));
            assert(self@ =~= before.push(station_entry(stations@[i as int])));
            assert(stations@.subrange(0, i as int + 1).map_values(|s: ExchangeStation| station_entry(s))
                =~= stations@.subrange(0, i as int).map_values(|s: ExchangeStation| station_entry(s)).push(
                station_entry(stations@[i as int]),
            ));
            i = i + 1;
        }
        assert(stations@.subrange(0, stations@.len() as int) =~= stations@);
    }

    /// Whether an exchange lies in system `id`.
    pub fn contains(&self, id: &String) -> (r: bool)
        ensures
            r == exchange_at(self@, id@),
    {
        let mut j: usize = 0;
        while j < self.entries.len()
            invariant
                j <= self.entries@.len(),
                forall|l: int| 0 <= l < j ==> (#[trigger] self@[l]).0 != id@,
            decreases self.entries@.len() - j,
        {
            if self.entries[j].0 == *id {
                assert(self@[j as int].0 == id@);
                return true;
            }
            j = j + 1;
        }
        false
    }

    /// The code of the exchange in system `id`, if there is one.
    pub fn code_of(&self, id: &String) -> (r: Option<String>)
        ensures
            match r {
                Some(c) => exchange_code(self@, id@) == Some(c@),
                None => exchange_code(self@, id@) is None,
            },
    {
        let mut j: usize = self.entries.len();
        assert(self@.subrange(0, j as int) =~= self@);
        while j > 0
            invariant
                j <= self.entries@.len(),
                exchange_code(self@, id@) == exchange_code(self@.subrange(0, j as int), id@),
            decreases j,
        {
            let ghost pre = self@.subrange(0, j as int);
            assert(pre.drop_last() =~= self@.subrange(0, j - 1));
            j = j - 1;
            if self.entries[j].0 == *id {
                return Some(self.entries[j].1.clone());
            }
        }
        None
    }
}

/// Which marker kinds are shown.
#[derive(Clone, Copy, Debug, PartialEq, Eq, Structural)]
pub struct MarkerToggles {
    pub show_cx: bool,
    pub show_bases: bool,
    pub show_ships: bool,
}

/// Some in-system flight lies in system `k`.
pub open spec fn in_system_flight_at(paths: Seq<FlightPath>, k: Seq<char>) -> bool {
    exists|j: int|
        0 <= j < paths.len() && (#[trigger] paths[j]).is_in_system && paths[j].origin_system_id@ == k
}

/// A ship marks system `k`: a ship is docked there or an in-system flight
/// takes place there.
pub open spec fn ship_marks(u: UserData, k: Seq<char>) -> bool {
    has_id(u.ship_system_ids@, k) || in_system_flight_at(u.flight_paths@, k)
}

/// The markers of system `k`, in ring order: each kind that is shown and
/// whose set holds `k`; bases and ships only with a user.
pub open spec fn markers_for(
    x: Seq<(Seq<char>, Seq<char>)>,
    user: Option<UserData>,
    t: MarkerToggles,
    k: Seq<char>,
) -> Seq<SystemMarker> {
    let cx = if t.show_cx && exchange_at(x, k) {
        seq![SystemMarker::CommodityExchange]
    } else {
        Seq::empty()
    };
    match user {
        None => cx,
        Some(u) => {
            let base = if t.show_bases && has_id(u.base_system_ids@, k) {
                seq![SystemMarker::Base]
            } else {
                Seq::empty()
            };
            let ship = if t.show_ships && ship_marks(u, k) {
                seq![SystemMarker::Ship]
            } else {
                Seq::empty()
            };
            cx + base + ship
        },
    }
}

/// The markers of every marked system: (natural ID, markers in ring order).
#[derive(Clone, Debug)]
pub struct MarkerSet {
    pub entries: Vec<(String, Vec<SystemMarker>)>,
}

impl MarkerSet {
    /// System `k` has an entry.
    pub open spec fn has_key(&self, k: Seq<char>) -> bool {
        exists|j: int| 0 <= j < self.entries@.len() && (#[trigger] self.entries@[j]).0@ == k
    }

    /// No system has two entries.
    pub open spec fn wf(&self) -> bool {
        forall|j: int, l: int|
            0 <= j < l < self.entries@.len() ==> (#[trigger] self.entries@[j]).0@ != (
            #[trigger] self.entries@[l]).0@
    }

    /// The set holds, for each system, exactly its markers under the given
    /// exchanges, user data and toggles, and no system without markers.
    pub open spec fn computed_from(
        &self,
        x: Seq<(Seq<char>, Seq<char>)>,
        user: Option<UserData>,
        t: MarkerToggles,
    ) -> bool {
        &&& self.wf()
        &&& forall|k: Seq<char>| self.has_key(k) <==> markers_for(x, user, t, k).len() > 0
        &&& forall|j: int|
            0 <= j < self.entries@.len() ==> (#[trigger] self.entries@[j]).1@ == markers_for(
                x,
                user,
                t,
                self.entries@[j].0@,
            )
    }

    /// The markers of system `id`, if it has any.
    pub fn get(&self, id: &String) -> (r: Option<&Vec<SystemMarker>>)
        ensures
            r is Some <==> self.has_key(id@),
            r is Some ==> exists|j: int|
                0 <= j < self.entries@.len() && self.entries@[j].0@ == id@ && #[trigger] self.entries@[j].1
                    == *r->0,
    {
        let mut j: usize = 0;
        while j < self.entries.len()
            invariant
                j <= self.entries@.len(),
                forall|l: int| 0 <= l < j ==> (#[trigger] self.entries@[l]).0@ != id@,
            decreases self.entries@.len() - j,
        {
            if self.entries[j].0 == *id {
                return Some(&self.entries[j].1);
            }
            j = j + 1;
        }
        None
    }
}

fn has_in_system_flight(paths: &Vec<FlightPath>, id: &String) -> (r: bool)
    ensures
        r == in_system_flight_at(paths@, id@),
{
    let mut j: usize = 0;
    while j < paths.len()
        invariant
            j <= paths@.len(),
            forall|l: int|
                0 <= l < j ==> !((#[trigger] paths@[l]).is_in_system && paths@[l].origin_system_id@
                    == id@),
        decreases paths@.len() - j,
    {
        if paths[j].is_in_system && paths[j].origin_system_id == *id {
            return true;
        }
        j = j + 1;
    }
    false
}

/// The markers of system `id`, in ring order.
pub fn markers_of(exchange: &ExchangeIndex, user: &Option<UserData>, toggles: MarkerToggles, id: &String) -> (r: Vec<SystemMarker>)
    ensures
        r@ == markers_for(exchange@, *user, toggles, id@),
{
    let mut r: Vec<SystemMarker> = Vec::new();
    if toggles.show_cx && exchange.contains(id) {
        r.push(SystemMarker::CommodityExchange);
    }
    let ghost cx = r@;
    match user {
        Some(u) => {
            if toggles.show_bases && crate::idset::contains_id(&u.base_system_ids, id) {
                r.push(SystemMarker::Base);
            }
            let ghost cb = r@;
            if toggles.show_ships {
                let docked = crate::idset::contains_id(&u.ship_system_ids, id);
                let flying = has_in_system_flight(&u.flight_paths, id);
                if docked || flying {
                    r.push(SystemMarker::Ship);
                }
            }
            assert(r@ =~= markers_for(exchange@, *user, toggles, id@));
        },
        None => {
            assert(r@ =~= markers_for(exchange@, *user, toggles, id@));
        },
    }
    r
}

/// System `k` qualifies for at least one marker.
pub open spec fn qualifies(
    x: Seq<(Seq<char>, Seq<char>)>,
    user: Option<UserData>,
    t: MarkerToggles,
    k: Seq<char>,
) -> bool {
    ||| t.show_cx && exchange_at(x, k)
    ||| user is Some && t.show_bases && has_id(user->0.base_system_ids@, k)
    ||| user is Some && t.show_ships && ship_marks(user->0, k)
}

proof fn lemma_markers_nonempty(
    x: Seq<(Seq<char>, Seq<char>)>,
    user: Option<UserData>,
    t: MarkerToggles,
    k: Seq<char>,
)
    ensures
        markers_for(x, user, t, k).len() > 0 <==> qualifies(x, user, t, k),
{
}

fn add_ids(cands: &mut Vec<String>, src: &Vec<String>)
    requires
        distinct_ids(old(cands)@),
    ensures
        distinct_ids(final(cands)@),
        forall|k: Seq<char>| #![trigger has_id(final(cands)@, k)] has_id(final(cands)@, k) <==> has_id(old(cands)@, k) || has_id(src@, k),
{
    let ghost start = cands@;
    let mut i: usize = 0;
    while i < src.len()
        invariant
            i <= src@.len(),
            distinct_ids(cands@),
            forall|k: Seq<char>|
                has_id(cands@, k) <==> has_id(start, k) || has_id(src@.subrange(0, i as int), k),
        decreases src@.len() - i,
    {
        let ghost prev = cands@;
        let item = src[i].clone();
        insert_id(cands, item);
        proof {
            let pre = src@.subrange(0, i as int);
            let post = src@.subrange(0, i as int + 1);
            assert forall|k: Seq<char>|
                has_id(cands@, k) <==> has_id(start, k) || has_id(post, k) by {
                assert(has_id(prev, k) <==> has_id(start, k) || has_id(pre, k));
                if has_id(pre, k) {
                    let j = choose|j: int| 0 <= j < pre.len() && (#[trigger] pre[j])@ == k;
                    assert(post[j] == pre[j]);
                }
                if has_id(post, k) {
                    let j = choose|j: int| 0 <= j < post.len() && (#[trigger] post[j])@ == k;
                    if j < i {
                        assert(post[j] == pre[j]);
                    }
                }
                assert(post[i as int] == src@[i as int]);
            }
        }
        i = i + 1;
    }
    assert(src@.subrange(0, src@.len() as int) =~= src@);
}

fn add_exchange_systems(cands: &mut Vec<String>, exchange: &ExchangeIndex)
    requires
        distinct_ids(old(cands)@),
    ensures
        distinct_ids(final(cands)@),
        forall|k: Seq<char>| #![trigger has_id(final(cands)@, k)] has_id(final(cands)@, k) <==> has_id(old(cands)@, k) || exchange_at(exchange@, k),
{
    let ghost start = cands@;
    let ghost x = exchange@;
    let mut i: usize = 0;
    while i < exchange.entries.len()
        invariant
            i <= exchange.entries@.len(),
            x == exchange@,
            distinct_ids(cands@),
            forall|k: Seq<char>|
                has_id(cands@, k) <==> has_id(start, k) || exchange_at(x.subrange(0, i as int), k),
        decreases exchange.entries@.len() - i,
    {
        let ghost prev = cands@;
        let item = exchange.entries[i].0.clone();
        insert_id(cands, item);
        proof {
            let pre = x.subrange(0, i as int);
            let post = x.subrange(0, i as int + 1);
            assert(x[i as int].0 == exchange.entries@[i as int].0@);
            assert forall|k: Seq<char>|
                has_id(cands@, k) <==> has_id(start, k) || exchange_at(post, k) by {
                assert(has_id(prev, k) <==> has_id(start, k) || exchange_at(pre, k));
                if exchange_at(pre, k) {
                    let j = choose|j: int| 0 <= j < pre.len() && (#[trigger] pre[j]).0 == k;
                    assert(post[j] == pre[j]);
                }
                if exchange_at(post, k) {
                    let j = choose|j: int| 0 <= j < post.len() && (#[trigger] post[j]).0 == k;
                    if j < i {
                        assert(post[j] == pre[j]);
                    }
                }
                assert(post[i as int] == x[i as int]);
            }
        }
        i = i + 1;
    }
    assert(x.subrange(0, x.len() as int) =~= x);
}

fn add_in_system_flights(cands: &mut Vec<String>, paths: &Vec<FlightPath>)
    requires
        distinct_ids(old(cands)@),
    ensures
        distinct_ids(final(cands)@),
        forall|k: Seq<char>|
            #![trigger has_id(final(cands)@, k)]
            has_id(final(cands)@, k) <==> has_id(old(cands)@, k) || in_system_flight_at(paths@, k),
{
    let ghost start = cands@;
    let mut i: usize = 0;
    while i < paths.len()
        invariant
            i <= paths@.len(),
            distinct_ids(cands@),
            forall|k: Seq<char>|
                has_id(cands@, k) <==> has_id(start, k) || in_system_flight_at(
                    paths@.subrange(0, i as int),
                    k,
                ),
        decreases paths@.len() - i,
    {
        let ghost prev = cands@;
        if paths[i].is_in_system {
            let item = paths[i].origin_system_id.clone();
            insert_id(cands, item);
        }
        proof {
            let pre = paths@.subrange(0, i as int);
            let post = paths@.subrange(0, i as int + 1);
            assert forall|k: Seq<char>|
                has_id(cands@, k) <==> has_id(start, k) || in_system_flight_at(post, k) by {
                assert(has_id(prev, k) <==> has_id(start, k) || in_system_flight_at(pre, k));
                if in_system_flight_at(pre, k) {
                    let j = choose|j: int|
                        0 <= j < pre.len() && (#[trigger] pre[j]).is_in_system
                            && pre[j].origin_system_id@ == k;
                    assert(post[j] == pre[j]);
                }
                if in_system_flight_at(post, k) {
                    let j = choose|j: int|
                        0 <= j < post.len() && (#[trigger] post[j]).is_in_system
                            && post[j].origin_system_id@ == k;
                    if j < i {
                        assert(post[j] == pre[j]);
                    }
                }
                assert(post[i as int] == paths@[i as int]);
            }
        }
        i = i + 1;
    }
    assert(paths@.subrange(0, paths@.len() as int) =~= paths@);
}

fn marked_systems(exchange: &ExchangeIndex, user: &Option<UserData>, toggles: MarkerToggles) -> (r: Vec<String>)
    ensures
        distinct_ids(r@),
        forall|k: Seq<char>| has_id(r@, k) <==> qualifies(exchange@, *user, toggles, k),
{
    let mut cands: Vec<String> = Vec::new();
    if toggles.show_cx {
        add_exchange_systems(&mut cands, exchange);
    }
    assert(forall|k: Seq<char>| has_id(cands@, k) <==> toggles.show_cx && exchange_at(exchange@, k));
    let ghost c1 = cands@;
    match user {
        Some(u) => {
            if toggles.show_bases {
                let ghost before = cands@;
                assert(before == c1);
                add_ids(&mut cands, &u.base_system_ids);
                assert(forall|k: Seq<char>|
                    has_id(cands@, k) <==> has_id(before, k) || has_id(u.base_system_ids@, k));
            }
            assert(forall|k: Seq<char>|
                has_id(cands@, k) <==> has_id(c1, k) || (toggles.show_bases && has_id(u.base_system_ids@, k)));
            let ghost c2 = cands@;
            if toggles.show_ships {
                add_ids(&mut cands, &u.ship_system_ids);
                add_in_system_flights(&mut cands, &u.flight_paths);
            }
            assert(forall|k: Seq<char>|
                has_id(cands@, k) <==> has_id(c2, k) || (toggles.show_ships && ship_marks(*u, k)));
        },
        None => {},
    }
    cands
}

/// Rebuilds the markers of every system from the exchanges, the user's data
/// (if logged in) and the toggles. A system is present exactly when it has
/// at least one marker, and its markers come in ring order.
pub fn recompute_markers(exchange: &ExchangeIndex, user: &Option<UserData>, toggles: MarkerToggles) -> (r: MarkerSet)
    ensures
        r.computed_from(exchange@, *user, toggles),
{
    let ghost x = exchange@;
    let cands = marked_systems(exchange, user, toggles);
    let mut out: Vec<(String, Vec<SystemMarker>)> = Vec::new();
    let mut i: usize = 0;
    while i < cands.len()
        invariant
            i <= cands@.len(),
            x == exchange@,
            out@.len() == i,
            distinct_ids(cands@),
            forall|k: Seq<char>| has_id(cands@, k) <==> qualifies(x, *user, toggles, k),
            forall|j: int| 0 <= j < i ==> (#[trigger] out@[j]).0@ == cands@[j]@,
            forall|j: int|
                0 <= j < i ==> (#[trigger] out@[j]).1@ == markers_for(x, *user, toggles, cands@[j]@),
        decreases cands@.len() - i,
    {
        let key = cands[i].clone();
        let ms = markers_of(exchange, user, toggles, &key);
        let ghost before = out@;
        out.push((key, ms));
        proof {
            assert forall|j: int| 0 <= j < i + 1 implies (#[trigger] out@[j]).0@ == cands@[j]@
                && out@[j].1@ == markers_for(x, *user, toggles, cands@[j]@) by {
                if j < i {
                    assert(out@[j] == before[j]);
                }
            }
        }
        i = i + 1;
    }
    let r = MarkerSet { entries: out };
    assert forall|j: int, l: int|
        0 <= j < l < r.entries@.len() implies (#[trigger] r.entries@[j]).0@ != (
        #[trigger] r.entries@[l]).0@ by {
        assert(cands@[j]@ != cands@[l]@);
    }
    assert forall|k: Seq<char>| r.has_key(k) <==> markers_for(x, *user, toggles, k).len() > 0 by {
        lemma_markers_nonempty(x, *user, toggles, k);
        if r.has_key(k) {
            let j = choose|j: int| 0 <= j < r.entries@.len() && (#[trigger] r.entries@[j]).0@ == k;
            assert(cands@[j]@ == k);
        }
        if has_id(cands@, k) {
            let j = choose|j: int| 0 <= j < cands@.len() && (#[trigger] cands@[j])@ == k;
            assert(r.entries@[j].0@ == k);
        }
    }
    assert forall|j: int| 0 <= j < r.entries@.len() implies (#[trigger] r.entries@[j]).1@
        == markers_for(x, *user, toggles, r.entries@[j].0@) by {
        assert(r.entries@[j].0@ == cands@[j]@);
    }
    r
}

/// The markers without the base marker, the others in their order.
pub open spec fn without_base(s: Seq<SystemMarker>) -> Seq<SystemMarker> {
    s.filter(|m: SystemMarker| m != SystemMarker::Base)
}

/// The toggles with bases hidden.
pub open spec fn bases_hidden(t: MarkerToggles) -> MarkerToggles {
    MarkerToggles { show_cx: t.show_cx, show_bases: false, show_ships: t.show_ships }
}

/// A system in all three sets (an exchange, a base, and a docked ship or an
/// in-system flight), with every kind shown, has an entry, and its markers
/// are exactly exchange, base, ship, in that order.
pub proof fn lemma_all_three_markers(
    x: Seq<(Seq<char>, Seq<char>)>,
    u: UserData,
    t: MarkerToggles,
    r: MarkerSet,
    k: Seq<char>,
)
    requires
        r.computed_from(x, Some(u), t),
        t.show_cx && t.show_bases && t.show_ships,
        exchange_at(x, k),
        has_id(u.base_system_ids@, k),
        ship_marks(u, k),
    ensures
        r.has_key(k),
        forall|j: int|
            0 <= j < r.entries@.len() && (#[trigger] r.entries@[j]).0@ == k ==> r.entries@[j].1@
                == seq![SystemMarker::CommodityExchange, SystemMarker::Base, SystemMarker::Ship],
{
    assert(markers_for(x, Some(u), t, k) =~= seq![
        SystemMarker::CommodityExchange,
        SystemMarker::Base,
        SystemMarker::Ship,
    ]);
}

proof fn lemma_without_base_markers(
    x: Seq<(Seq<char>, Seq<char>)>,
    user: Option<UserData>,
    t: MarkerToggles,
    k: Seq<char>,
)
    requires
        t.show_bases,
    ensures
        markers_for(x, user, bases_hidden(t), k) == without_base(markers_for(x, user, t, k)),
{
    reveal_with_fuel(Seq::filter, 4);
    let cx = SystemMarker::CommodityExchange;
    let b = SystemMarker::Base;
    let sh = SystemMarker::Ship;
    let has_cx = t.show_cx && exchange_at(x, k);
    match user {
        None => {
            if has_cx {
                assert(seq![cx].drop_last() =~= Seq::<SystemMarker>::empty());
                assert(without_base(seq![cx]) =~= seq![cx]);
            } else {
                assert(without_base(Seq::<SystemMarker>::empty()) =~= Seq::<SystemMarker>::empty());
            }
        },
        Some(u) => {
            let has_b = has_id(u.base_system_ids@, k);
            let has_s = t.show_ships && ship_marks(u, k);
            let c = if has_cx { seq![cx] } else { Seq::<SystemMarker>::empty() };
            let bs = if has_b { seq![b] } else { Seq::<SystemMarker>::empty() };
            let ss = if has_s { seq![sh] } else { Seq::<SystemMarker>::empty() };
            let full = c + bs + ss;
            assert(markers_for(x, user, t, k) == full);
            assert(markers_for(x, user, bases_hidden(t), k) == c + Seq::<SystemMarker>::empty() + ss);
            let e = Seq::<SystemMarker>::empty();
            if has_cx {
                if has_b {
                    if has_s {
                        assert(full =~= seq![cx, b, sh]);
                        assert(seq![cx, b, sh].drop_last() =~= seq![cx, b]);
                        assert(seq![cx, b].drop_last() =~= seq![cx]);
                        assert(seq![cx].drop_last() =~= e);
                        assert(without_base(seq![cx, b, sh]) =~= seq![cx, sh]);
                        assert(c + e + ss =~= seq![cx, sh]);
                    } else {
                        assert(full =~= seq![cx, b]);
                        assert(seq![cx, b].drop_last() =~= seq![cx]);
                        assert(seq![cx].drop_last() =~= e);
                        assert(without_base(seq![cx, b]) =~= seq![cx]);
                        assert(c + e + ss =~= seq![cx]);
                    }
                } else {
                    if has_s {
                        assert(full =~= seq![cx, sh]);
                        assert(seq![cx, sh].drop_last() =~= seq![cx]);
                        assert(seq![cx].drop_last() =~= e);
                        assert(without_base(seq![cx, sh]) =~= seq![cx, sh]);
                        assert(c + e + ss =~= seq![cx, sh]);
                    } else {
                        assert(full =~= seq![cx]);
                        assert(seq![cx].drop_last() =~= e);
                        assert(without_base(seq![cx]) =~= seq![cx]);
                        assert(c + e + ss =~= seq![cx]);
                    }
                }
            } else {
                if has_b {
                    if has_s {
                        assert(full =~= seq![b, sh]);
                        assert(seq![b, sh].drop_last() =~= seq![b]);
                        assert(seq![b].drop_last() =~= e);
                        assert(without_base(seq![b, sh]) =~= seq![sh]);
                        assert(c + e + ss =~= seq![sh]);
                    } else {
                        assert(full =~= seq![b]);
                        assert(seq![b].drop_last() =~= e);
                        assert(without_base(seq![b]) =~= e);
                        assert(c + e + ss =~= e);
                    }
                } else {
                    if has_s {
                        assert(full =~= seq![sh]);
                        assert(seq![sh].drop_last() =~= e);
                        assert(without_base(seq![sh]) =~= seq![sh]);
                        assert(c + e + ss =~= seq![sh]);
                    } else {
                        assert(full =~= e);
                        assert(without_base(e) =~= e);
                        assert(c + e + ss =~= e);
                    }
                }
            }
        },
    }
}

/// Hiding bases, all else equal, takes the base marker out of every
/// system's markers and leaves the exchange and ship markers in their
/// order; a system keeps its entry exactly when a marker remains.
pub proof fn lemma_hide_bases(
    x: Seq<(Seq<char>, Seq<char>)>,
    user: Option<UserData>,
    t: MarkerToggles,
    shown: MarkerSet,
    hidden: MarkerSet,
)
    requires
        t.show_bases,
        shown.computed_from(x, user, t),
        hidden.computed_from(x, user, bases_hidden(t)),
    ensures
        forall|j: int, l: int|
            0 <= j < hidden.entries@.len() && 0 <= l < shown.entries@.len() && (#[trigger] hidden.entries@[j]).0@
                == (#[trigger] shown.entries@[l]).0@ ==> hidden.entries@[j].1@ == without_base(
                shown.entries@[l].1@,
            ),
        forall|k: Seq<char>| hidden.has_key(k) ==> shown.has_key(k),
        forall|l: int|
            0 <= l < shown.entries@.len() ==> (hidden.has_key((#[trigger] shown.entries@[l]).0@)
                <==> without_base(shown.entries@[l].1@).len() > 0),
{
    assert forall|j: int, l: int|
        0 <= j < hidden.entries@.len() && 0 <= l < shown.entries@.len() && (#[trigger] hidden.entries@[j]).0@
            == (#[trigger] shown.entries@[l]).0@ implies hidden.entries@[j].1@ == without_base(
        shown.entries@[l].1@,
    ) by {
        lemma_without_base_markers(x, user, t, shown.entries@[l].0@);
    }
    assert forall|k: Seq<char>| hidden.has_key(k) implies shown.has_key(k) by {
        lemma_without_base_markers(x, user, t, k);
        let m = markers_for(x, user, t, k);
        if m.len() == 0 {
            reveal_with_fuel(Seq::filter, 1);
        }
    }
    assert forall|l: int| 0 <= l < shown.entries@.len() implies (hidden.has_key(
        (#[trigger] shown.entries@[l]).0@,
    ) <==> without_base(shown.entries@[l].1@).len() > 0) by {
        lemma_without_base_markers(x, user, t, shown.entries@[l].0@);
    }
}

} // verus!
