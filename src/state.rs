//! The map's shared state and how each arriving result changes it: the graph
//! is replaced whole, marker inputs are merged, and the markers are rebuilt
//! before anything reads them again. A failed fetch leaves the last good
//! state in place.

use vstd::prelude::*;

use crate::markers::{recompute_markers, station_entry, ExchangeIndex, MarkerSet, MarkerToggles};
use crate::records::{ExchangeStation, StarSystem, UserData};
use crate::starmap::{total_connections, StarMap};

verus! {

/// The graph (once loaded), the marker inputs and the markers built from them.
pub struct MapState {
    pub star_map: Option<StarMap>,
    pub loading: bool,
    pub error: Option<String>,
    pub exchanges: ExchangeIndex,
    pub user_data: Option<UserData>,
    pub toggles: MarkerToggles,
    pub markers: MarkerSet,
}

impl MapState {
    /// The graph, once loaded, is well formed, and the markers are those of
    /// the current inputs.
    pub open spec fn wf(&self) -> bool {
        &&& self.star_map matches Some(m) ==> m.wf()
        &&& self.markers.computed_from(self.exchanges@, self.user_data, self.toggles)
    }

    /// No graph yet and loading; no exchange, no user; every marker kind shown.
    pub fn new() -> (r: MapState)
        ensures
            r.wf(),
            r.star_map is None,
            r.loading,
            r.error is None,
            r.exchanges@ == Seq::<(Seq<char>, Seq<char>)>::empty(),
            r.user_data is None,
            r.toggles == (MarkerToggles { show_cx: true, show_bases: true, show_ships: true }),
    {
        let exchanges = ExchangeIndex::new();
        let user_data: Option<UserData> = None;
        let toggles = MarkerToggles { show_cx: true, show_bases: true, show_ships: true };
        let markers = recompute_markers(&exchanges, &user_data, toggles);
        MapState { star_map: None, loading: true, error: None, exchanges, user_data, toggles, markers }
    }

    /// The star systems arrived, or their fetch failed. On success the graph
    /// is replaced by the graph of the records; on failure the error is kept
    /// and the graph stays. Loading is over either way.
    pub fn systems_loaded(&mut self, result: Result<Vec<StarSystem>, String>)
        requires
            old(self).wf(),
            result matches Ok(s) ==> s@.len() < u32::MAX && total_connections(s@) < u32::MAX,
        ensures
            final(self).wf(),
            !final(self).loading,
            final(self).exchanges == old(self).exchanges,
            final(self).user_data == old(self).user_data,
            final(self).toggles == old(self).toggles,
            match result {
                Ok(s) => final(self).star_map is Some && final(self).star_map->0.built_from(s@)
                    && final(self).error == old(self).error,
                Err(e) => final(self).star_map == old(self).star_map && final(self).error == Some(e),
            },
    {
        match result {
            Ok(systems) => {
                self.star_map = Some(StarMap::from_systems(systems));
                self.markers = recompute_markers(&self.exchanges, &self.user_data, self.toggles);
            },
            Err(e) => {
                self.error = Some(e);
            },
        }
        self.loading = false;
    }

    /// The exchange stations arrived, or their fetch failed. On success they
    /// are added to the known exchanges and the markers are rebuilt; on
    /// failure nothing changes.
    pub fn stations_loaded(&mut self, result: Result<Vec<ExchangeStation>, String>)
        requires
            old(self).wf(),
        ensures
            final(self).wf(),
            final(self).star_map == old(self).star_map,
            final(self).loading == old(self).loading,
            final(self).error == old(self).error,
            final(self).user_data == old(self).user_data,
            final(self).toggles == old(self).toggles,
            match result {
                Ok(s) => final(self).exchanges@ == old(self).exchanges@ + s@.map_values(
                    |st: ExchangeStation| station_entry(st),
                ),
                Err(_) => final(self).exchanges == old(self).exchanges && final(self).markers
                    == old(self).markers,
            },
    {
        match result {
            Ok(stations) => {
                self.exchanges.add_stations(&stations);
                self.markers = recompute_markers(&self.exchanges, &self.user_data, self.toggles);
            },
            Err(_) => {},
        }
    }

    /// The user's data arrived, or its fetch failed. On success it replaces
    /// the former user data and the markers are rebuilt; on failure nothing
    /// changes.
    pub fn user_data_loaded(&mut self, result: Result<UserData, String>)
        requires
            old(self).wf(),
        ensures
            final(self).wf(),
            final(self).star_map == old(self).star_map,
            final(self).loading == old(self).loading,
            final(self).error == old(self).error,
            final(self).exchanges == old(self).exchanges,
            final(self).toggles == old(self).toggles,
            match result {
                Ok(u) => final(self).user_data == Some(u),
                Err(_) => final(self).user_data == old(self).user_data && final(self).markers
                    == old(self).markers,
            },
    {
        match result {
            Ok(u) => {
                self.user_data = Some(u);
                self.markers = recompute_markers(&self.exchanges, &self.user_data, self.toggles);
            },
            Err(_) => {},
        }
    }

    /// The user logged out: the user data goes and the markers are rebuilt.
    pub fn logout(&mut self)
        requires
            old(self).wf(),
        ensures
            final(self).wf(),
            final(self).user_data is None,
            final(self).star_map == old(self).star_map,
            final(self).exchanges == old(self).exchanges,
            final(self).toggles == old(self).toggles,
            final(self).error == old(self).error,
            final(self).loading == old(self).loading,
    {
        self.user_data = None;
        self.markers = recompute_markers(&self.exchanges, &self.user_data, self.toggles);
    }

    /// New visibility toggles: the markers are rebuilt under them.
    pub fn set_toggles(&mut self, toggles: MarkerToggles)
        requires
            old(self).wf(),
        ensures
            final(self).wf(),
            final(self).toggles == toggles,
            final(self).star_map == old(self).star_map,
            final(self).exchanges == old(self).exchanges,
            final(self).user_data == old(self).user_data,
            final(self).error == old(self).error,
            final(self).loading == old(self).loading,
    {
        self.toggles = toggles;
        self.markers = recompute_markers(&self.exchanges, &self.user_data, self.toggles);
    }
}

} // verus!
