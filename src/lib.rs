//! Spatial graph engine of an interactive star map: a connectivity graph
//! built from raw system records, per-system marker aggregation, flight
//! classification, search and the selection state of the map view.

pub mod graph;
pub mod ident;
pub mod idset;
pub mod markers;
pub mod records;
pub mod star;
pub mod starmap;
pub mod state;
pub mod text;
pub mod view;

pub use ident::extract_system_from_planet;
pub use markers::{markers_of, recompute_markers, ExchangeIndex, MarkerSet, MarkerToggles, SystemMarker};
pub use records::{
    base_systems, flight_paths, ship_systems, AuthResponse, ExchangeStation, Flight, FlightLine,
    FlightPath, FlightSegment, Site, StarSystem, SystemConnection, UserData,
};
pub use star::{StarNode, StarType};
pub use starmap::{StarMap, SEARCH_LIMIT};
pub use state::MapState;
pub use text::matches_folded;
pub use view::{Projection, Selection};
