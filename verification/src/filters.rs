use vstd::prelude::*;

use crate::models::base_model::{
    PREFIX_ID_COMMERCIAL_MODE,
    PREFIX_ID_LINE,
    PREFIX_ID_NETWORK,
    PREFIX_ID_PHYSICAL_MODE,
    PREFIX_ID_ROUTE,
    PREFIX_ID_STOP_AREA,
    PREFIX_ID_STOP_POINT,
};
use crate::text::str_equals;
use vstd::string::StrSliceExecFns;

verus! {

/// A filter on stop points, by the id of the stop point or of its stop area
pub enum StopFilter<'a> {
    StopPoint(&'a str),
    StopArea(&'a str),
}

/// A filter on vehicle journeys, by the id of their line, route, network, physical mode or
/// commercial mode
pub enum VehicleFilter<'a> {
    Line(&'a str),
    Route(&'a str),
    Network(&'a str),
    PhysicalMode(&'a str),
    CommercialMode(&'a str),
}

/// A filter on stop points or on vehicle journeys
pub enum Filter<'a> {
    Stop(StopFilter<'a>),
    Vehicle(VehicleFilter<'a>),
}

/// The kinds of filters, by number: 0 line, 1 route, 2 network, 3 physical mode,
/// 4 commercial mode, 5 stop point, 6 stop area. Kinds below 5 filter vehicle journeys.
pub open spec fn is_vehicle_kind(kind: nat) -> bool {
    kind < 5
}

impl<'a> VehicleFilter<'a> {
    /// The kind of the filter and the id it filters on
    pub open spec fn view(&self) -> (nat, Seq<char>) {
        match *self {
            VehicleFilter::Line(id) => (0nat, id@),
            VehicleFilter::Route(id) => (1nat, id@),
            VehicleFilter::Network(id) => (2nat, id@),
            VehicleFilter::PhysicalMode(id) => (3nat, id@),
            VehicleFilter::CommercialMode(id) => (4nat, id@),
        }
    }

    /// `true` when the vehicle journey whose names are `names` has the id of the filter
    pub fn applies_on(&self, names: &VehicleJourneyNames) -> (r: bool)
        ensures
            r == (names.name_of_kind(self@.0) == self@.1),
    {
        match self {
            VehicleFilter::Line(line_id) => str_equals(names.line.as_str(), line_id),
            VehicleFilter::Route(route_id) => str_equals(names.route.as_str(), route_id),
            VehicleFilter::Network(network_id) => str_equals(names.network.as_str(), network_id),
            VehicleFilter::PhysicalMode(physical_mode_id) => str_equals(
                names.physical_mode.as_str(),
                physical_mode_id,
            ),
            VehicleFilter::CommercialMode(commercial_mode_id) => str_equals(
                names.commercial_mode.as_str(),
                commercial_mode_id,
            ),
        }
    }
}

impl<'a> StopFilter<'a> {
    /// The kind of the filter and the id it filters on
    pub open spec fn view(&self) -> (nat, Seq<char>) {
        match *self {
            StopFilter::StopPoint(id) => (5nat, id@),
            StopFilter::StopArea(id) => (6nat, id@),
        }
    }

    /// `true` when the stop point whose names are `names` has the id of the filter
    pub fn applies_on(&self, names: &StopPointNames) -> (r: bool)
        ensures
            r == (names.name_of_kind(self@.0) == self@.1),
    {
        match self {
            StopFilter::StopPoint(stop_point_id) => str_equals(stop_point_id, names.stop_point.as_str()),
            StopFilter::StopArea(stop_area_id) => str_equals(stop_area_id, names.stop_area.as_str()),
        }
    }
}

impl<'a> Filter<'a> {
    /// The kind of the filter and the id it filters on
    pub open spec fn view(&self) -> (nat, Seq<char>) {
        match *self {
            Filter::Stop(f) => f@,
            Filter::Vehicle(f) => f@,
        }
    }
}

/// The ids of a vehicle journey's line, route, network, physical mode and commercial mode
pub struct VehicleJourneyNames {
    pub line: String,
    pub route: String,
    pub network: String,
    pub physical_mode: String,
    pub commercial_mode: String,
}

impl VehicleJourneyNames {
    /// The id of the kind `kind`
    pub open spec fn name_of_kind(&self, kind: nat) -> Seq<char> {
        if kind == 0 {
            self.line@
        } else if kind == 1 {
            self.route@
        } else if kind == 2 {
            self.network@
        } else if kind == 3 {
            self.physical_mode@
        } else {
            self.commercial_mode@
        }
    }
}

/// The ids of a stop point and of its stop area
pub struct StopPointNames {
    pub stop_point: String,
    pub stop_area: String,
}

impl StopPointNames {
    /// The id of the kind `kind`
    pub open spec fn name_of_kind(&self, kind: nat) -> Seq<char> {
        if kind == 5 {
            self.stop_point@
        } else {
            self.stop_area@
        }
    }
}

/// The ids known in the transit data, by kind
pub struct KnownIds {
    pub lines: Vec<String>,
    pub routes: Vec<String>,
    pub networks: Vec<String>,
    pub physical_modes: Vec<String>,
    pub commercial_modes: Vec<String>,
    pub stop_points: Vec<String>,
    pub stop_areas: Vec<String>,
}

/// `id` is one of `ids`
pub open spec fn contains_id(ids: Seq<String>, id: Seq<char>) -> bool {
    exists|i: int| 0 <= i < ids.len() && (#[trigger] ids[i])@ == id
}

/// `true` when `id` is one of `ids`
fn contains(ids: &Vec<String>, id: &str) -> (r: bool)
    ensures
        r == contains_id(ids@, id@),
{
    let mut i: usize = 0;
    while i < ids.len()
        invariant
            i <= ids@.len(),
            forall|j: int| 0 <= j < i ==> (#[trigger] ids@[j])@ != id@,
        decreases ids@.len() - i,
    {
        if str_equals(ids[i].as_str(), id) {
            return true;
        }
        i += 1;
    }
    false
}

impl KnownIds {
    /// The ids of the kind `kind`
    pub open spec fn ids_of_kind(&self, kind: nat) -> Seq<String> {
        if kind == 0 {
            self.lines@
        } else if kind == 1 {
            self.routes@
        } else if kind == 2 {
            self.networks@
        } else if kind == 3 {
            self.physical_modes@
        } else if kind == 4 {
            self.commercial_modes@
        } else if kind == 5 {
            self.stop_points@
        } else {
            self.stop_areas@
        }
    }

    /// `id` is a known id of the kind `kind`.
    pub open spec fn knows(&self, kind: nat, id: Seq<char>) -> bool {
        contains_id(self.ids_of_kind(kind), id)
    }
}

/// The prefix of the ids of the kind `kind`
pub open spec fn kind_prefix(kind: nat) -> Seq<char> {
    if kind == 0 {
        PREFIX_ID_LINE@
    } else if kind == 1 {
        PREFIX_ID_ROUTE@
    } else if kind == 2 {
        PREFIX_ID_NETWORK@
    } else if kind == 3 {
        PREFIX_ID_PHYSICAL_MODE@
    } else if kind == 4 {
        PREFIX_ID_COMMERCIAL_MODE@
    } else if kind == 5 {
        PREFIX_ID_STOP_POINT@
    } else {
        PREFIX_ID_STOP_AREA@
    }
}

/// The first kind, in the order of the kinds, whose prefix starts `s`
pub open spec fn first_kind_from(s: Seq<char>, kind: nat) -> Option<nat>
    decreases 7 - kind,
{
    if kind >= 7 {
        None
    } else if kind_prefix(kind).is_prefix_of(s) {
        Some(kind)
    } else {
        first_kind_from(s, kind + 1)
    }
}

/// The filter written `s`: the first kind whose prefix starts `s`, and the rest of `s` as
/// the id, when that id is known for that kind
pub open spec fn parsed_filter(known: KnownIds, s: Seq<char>) -> Option<(nat, Seq<char>)> {
    match first_kind_from(s, 0) {
        Some(kind) => {
            let id = s.skip(kind_prefix(kind).len() as int);
            if known.knows(kind, id) {
                Some((kind, id))
            } else {
                None
            }
        },
        None => None,
    }
}

/// `s` without `prefix`, when `s` starts with `prefix`
fn strip_prefix<'a>(s: &'a str, prefix: &str) -> (r: Option<&'a str>)
    ensures
        r is Some <==> prefix@.is_prefix_of(s@),
        r matches Some(rest) ==> s@ == prefix@ + rest@,
{
    let n = prefix.unicode_len();
    let m = s.unicode_len();
    if n > m {
        return None;
    }
    let mut i: usize = 0;
    while i < n
        invariant
            n == prefix@.len(),
            m == s@.len(),
            n <= m,
            i <= n,
            forall|j: int| 0 <= j < i ==> s@[j] == prefix@[j],
        decreases n - i,
    {
        if s.get_char(i) != prefix.get_char(i) {
            proof {
                if prefix@.is_prefix_of(s@) {
                    assert(s@.subrange(0, n as int)[i as int] == s@[i as int]);
                }
            }
            return None;
        }
        i += 1;
    }
    let rest = s.substring_char(n, m);
    proof {
        assert(s@ =~= prefix@ + rest@);
        assert(prefix@ =~= s@.subrange(0, n as int));
    }
    Some(rest)
}

/// `true` when `id` is a known id of the kind `kind`
fn knows(known: &KnownIds, kind: u8, id: &str) -> (r: bool)
    requires
        kind < 7,
    ensures
        r == known.knows(kind as nat, id@),
{
    if kind == 0 {
        contains(&known.lines, id)
    } else if kind == 1 {
        contains(&known.routes, id)
    } else if kind == 2 {
        contains(&known.networks, id)
    } else if kind == 3 {
        contains(&known.physical_modes, id)
    } else if kind == 4 {
        contains(&known.commercial_modes, id)
    } else if kind == 5 {
        contains(&known.stop_points, id)
    } else {
        contains(&known.stop_areas, id)
    }
}

/// The prefix of the ids of the kind `kind`
fn prefix_of_kind(kind: u8) -> (r: &'static str)
    requires
        kind < 7,
    ensures
        r@ == kind_prefix(kind as nat),
{
    if kind == 0 {
        PREFIX_ID_LINE
    } else if kind == 1 {
        PREFIX_ID_ROUTE
    } else if kind == 2 {
        PREFIX_ID_NETWORK
    } else if kind == 3 {
        PREFIX_ID_PHYSICAL_MODE
    } else if kind == 4 {
        PREFIX_ID_COMMERCIAL_MODE
    } else if kind == 5 {
        PREFIX_ID_STOP_POINT
    } else {
        PREFIX_ID_STOP_AREA
    }
}

/// The filter of the kind `kind` on `id`
fn filter_of_kind<'a>(kind: u8, id: &'a str) -> (r: Filter<'a>)
    requires
        kind < 7,
    ensures
        r@ == (kind as nat, id@),
{
    if kind == 0 {
        Filter::Vehicle(VehicleFilter::Line(id))
    } else if kind == 1 {
        Filter::Vehicle(VehicleFilter::Route(id))
    } else if kind == 2 {
        Filter::Vehicle(VehicleFilter::Network(id))
    } else if kind == 3 {
        Filter::Vehicle(VehicleFilter::PhysicalMode(id))
    } else if kind == 4 {
        Filter::Vehicle(VehicleFilter::CommercialMode(id))
    } else if kind == 5 {
        Filter::Stop(StopFilter::StopPoint(id))
    } else {
        Filter::Stop(StopFilter::StopArea(id))
    }
}

/// The filter written `filter_str`: a line, route, network, physical mode, commercial mode,
/// stop point or stop area id, tried in that order, behind its prefix; an error when no
/// prefix starts `filter_str` or when the id after the prefix is not known
pub fn parse_filter<'a>(known: &KnownIds, filter_str: &'a str, _filter_provenance: &str) -> (r: Result<Filter<'a>, ()>)
    ensures
        match parsed_filter(*known, filter_str@) {
            Some(f) => r is Ok && r->Ok_0@ == f,
            None => r is Err,
        },
{
    let mut kind: u8 = 0;
    while kind < 7
        invariant
            kind <= 7,
            first_kind_from(filter_str@, 0) == first_kind_from(filter_str@, kind as nat),
        decreases 7 - kind,
    {
        let prefix = prefix_of_kind(kind);
        match strip_prefix(filter_str, prefix) {
            Some(id) => {
                proof {
                    assert(first_kind_from(filter_str@, kind as nat) == Some(kind as nat));
                    assert(id@ =~= filter_str@.skip(prefix@.len() as int));
                }
                if knows(known, kind, id) {
                    return Ok(filter_of_kind(kind, id));
                } else {
                    return Err(());
                }
            },
            None => {},
        }
        kind += 1;
    }
    Err(())
}

/// The filters of `uris` that parse, in order, keeping the vehicle filters when `vehicle`
/// holds and the stop filters otherwise
pub open spec fn parsed_filters(known: KnownIds, uris: Seq<String>, vehicle: bool) -> Seq<(nat, Seq<char>)>
    decreases uris.len(),
{
    if uris.len() == 0 {
        Seq::empty()
    } else {
        let before = parsed_filters(known, uris.drop_last(), vehicle);
        match parsed_filter(known, uris.last()@) {
            Some(f) => if is_vehicle_kind(f.0) == vehicle {
                before.push(f)
            } else {
                before
            },
            None => before,
        }
    }
}

/// The allowed and forbidden filters of a request
pub struct Filters<'a> {
    allowed_vehicles: Vec<VehicleFilter<'a>>,
    forbidden_vehicles: Vec<VehicleFilter<'a>>,
    allowed_stops: Vec<StopFilter<'a>>,
    forbidden_stops: Vec<StopFilter<'a>>,
}

/// Some filter of `filters` applies on a vehicle journey with the names `names`.
pub open spec fn some_applies(filters: Seq<(nat, Seq<char>)>, names: VehicleJourneyNames) -> bool {
    exists|i: int| 0 <= i < filters.len() && names.name_of_kind((#[trigger] filters[i]).0) == filters[i].1
}

/// Some filter of `filters` applies on a stop point with the names `names`.
pub open spec fn some_applies_on_stop(filters: Seq<(nat, Seq<char>)>, names: StopPointNames) -> bool {
    exists|i: int| 0 <= i < filters.len() && names.name_of_kind((#[trigger] filters[i]).0) == filters[i].1
}

/// The vehicle filters and the stop filters that `uris` hold, in order
fn parse_filters<'a>(
    known: &KnownIds,
    uris: &'a [String],
    filter_provenance: &str,
) -> (r: (Vec<VehicleFilter<'a>>, Vec<StopFilter<'a>>))
    ensures
        r.0@.map_values(|f: VehicleFilter<'a>| f@) == parsed_filters(*known, uris@, true),
        r.1@.map_values(|f: StopFilter<'a>| f@) == parsed_filters(*known, uris@, false),
{
    let mut vehicle_filters: Vec<VehicleFilter<'a>> = Vec::new();
    let mut stop_filters: Vec<StopFilter<'a>> = Vec::new();
    let mut i: usize = 0;
    while i < uris.len()
        invariant
            i <= uris@.len(),
            vehicle_filters@.map_values(|f: VehicleFilter<'a>| f@) == parsed_filters(
                *known,
                uris@.take(i as int),
                true,
            ),
            stop_filters@.map_values(|f: StopFilter<'a>| f@) == parsed_filters(
                *known,
                uris@.take(i as int),
                false,
            ),
        decreases uris@.len() - i,
    {
        let ghost before_vehicles = vehicle_filters@.map_values(|f: VehicleFilter<'a>| f@);
        let ghost before_stops = stop_filters@.map_values(|f: StopFilter<'a>| f@);
        proof {
            assert(uris@.take(i + 1).drop_last() =~= uris@.take(i as int));
            assert(uris@.take(i + 1).last() == uris@[i as int]);
        }
        let filter_result = parse_filter(known, uris[i].as_str(), filter_provenance);
        match filter_result {
            Ok(filter) => {
                match filter {
                    Filter::Stop(stop_filter) => {
                        stop_filters.push(stop_filter);
                        proof {
                            assert(stop_filters@.map_values(|f: StopFilter<'a>| f@) =~= before_stops.push(
                                stop_filter@,
                            ));
                        }
                    },
                    Filter::Vehicle(vehicle_filter) => {
                        vehicle_filters.push(vehicle_filter);
                        proof {
                            assert(vehicle_filters@.map_values(|f: VehicleFilter<'a>| f@)
                                =~= before_vehicles.push(vehicle_filter@));
                        }
                    },
                }
            },
            Err(_) => {},
        }
        i += 1;
    }
    proof {
        assert(uris@.take(i as int) =~= uris@);
    }
    (vehicle_filters, stop_filters)
}

impl<'a> Filters<'a> {
    /// The allowed vehicle filters, as kinds and ids
    pub closed spec fn allowed_vehicles(&self) -> Seq<(nat, Seq<char>)> {
        self.allowed_vehicles@.map_values(|f: VehicleFilter<'a>| f@)
    }

    /// The forbidden vehicle filters, as kinds and ids
    pub closed spec fn forbidden_vehicles(&self) -> Seq<(nat, Seq<char>)> {
        self.forbidden_vehicles@.map_values(|f: VehicleFilter<'a>| f@)
    }

    /// The allowed stop filters, as kinds and ids
    pub closed spec fn allowed_stops(&self) -> Seq<(nat, Seq<char>)> {
        self.allowed_stops@.map_values(|f: StopFilter<'a>| f@)
    }

    /// The forbidden stop filters, as kinds and ids
    pub closed spec fn forbidden_stops(&self) -> Seq<(nat, Seq<char>)> {
        self.forbidden_stops@.map_values(|f: StopFilter<'a>| f@)
    }

    /// The filters written in `forbidden_uri` and `allowed_uri`, when at least one of them
    /// parses
    pub fn new(known: &KnownIds, forbidden_uri: &'a [String], allowed_uri: &'a [String]) -> (r: Option<Filters<'a>>)
        ensures
            r is None <==> (parsed_filters(*known, allowed_uri@, true).len() == 0 && parsed_filters(
                *known,
                allowed_uri@,
                false,
            ).len() == 0 && parsed_filters(*known, forbidden_uri@, true).len() == 0
                && parsed_filters(*known, forbidden_uri@, false).len() == 0),
            r matches Some(filters) ==> {
                &&& filters.allowed_vehicles() == parsed_filters(*known, allowed_uri@, true)
                &&& filters.allowed_stops() == parsed_filters(*known, allowed_uri@, false)
                &&& filters.forbidden_vehicles() == parsed_filters(*known, forbidden_uri@, true)
                &&& filters.forbidden_stops() == parsed_filters(*known, forbidden_uri@, false)
            },
    {
        let (allowed_vehicle_filters, allowed_stop_filters) = parse_filters(
            known,
            allowed_uri,
            "allowed_id[]",
        );
        let (forbidden_vehicle_filters, forbidden_stop_filters) = parse_filters(
            known,
            forbidden_uri,
            "forbidden_id[]",
        );
        let has_no_filter = allowed_stop_filters.len() == 0 && allowed_vehicle_filters.len() == 0
            && forbidden_stop_filters.len() == 0 && forbidden_vehicle_filters.len() == 0;
        if has_no_filter {
            None
        } else {
            let result = Filters {
                allowed_stops: allowed_stop_filters,
                forbidden_stops: forbidden_stop_filters,
                allowed_vehicles: allowed_vehicle_filters,
                forbidden_vehicles: forbidden_vehicle_filters,
            };
            Some(result)
        }
    }

    /// A vehicle journey is valid when no forbidden filter applies on it and, if there are
    /// allowed filters, one of them applies on it.
    pub fn is_vehicle_journey_valid(&self, names: &VehicleJourneyNames) -> (r: bool)
        ensures
            r == (!some_applies(self.forbidden_vehicles(), *names) && (self.allowed_vehicles().len()
                == 0 || some_applies(self.allowed_vehicles(), *names))),
    {
        let mut i: usize = 0;
        while i < self.forbidden_vehicles.len()
            invariant
                i <= self.forbidden_vehicles@.len(),
                forall|j: int|
                    0 <= j < i ==> names.name_of_kind((#[trigger] self.forbidden_vehicles()[j]).0)
                        != self.forbidden_vehicles()[j].1,
            decreases self.forbidden_vehicles@.len() - i,
        {
            if self.forbidden_vehicles[i].applies_on(names) {
                assert(self.forbidden_vehicles()[i as int] == self.forbidden_vehicles@[i as int]@);
                return false;
            }
            i += 1;
        }
        if self.allowed_vehicles.len() == 0 {
            return true;
        }
        let mut i: usize = 0;
        while i < self.allowed_vehicles.len()
            invariant
                i <= self.allowed_vehicles@.len(),
                !some_applies(self.forbidden_vehicles(), *names),
                forall|j: int|
                    0 <= j < i ==> names.name_of_kind((#[trigger] self.allowed_vehicles()[j]).0)
                        != self.allowed_vehicles()[j].1,
            decreases self.allowed_vehicles@.len() - i,
        {
            if self.allowed_vehicles[i].applies_on(names) {
                assert(self.allowed_vehicles()[i as int] == self.allowed_vehicles@[i as int]@);
                return true;
            }
            i += 1;
        }
        false
    }

    /// A stop point is valid when no forbidden filter applies on it and, if there are
    /// allowed filters, one of them applies on it.
    pub fn is_stop_point_valid(&self, names: &StopPointNames) -> (r: bool)
        ensures
            r == (!some_applies_on_stop(self.forbidden_stops(), *names) && (self.allowed_stops().len()
                == 0 || some_applies_on_stop(self.allowed_stops(), *names))),
    {
        let mut i: usize = 0;
        while i < self.forbidden_stops.len()
            invariant
                i <= self.forbidden_stops@.len(),
                forall|j: int|
                    0 <= j < i ==> names.name_of_kind((#[trigger] self.forbidden_stops()[j]).0)
                        != self.forbidden_stops()[j].1,
            decreases self.forbidden_stops@.len() - i,
        {
            if self.forbidden_stops[i].applies_on(names) {
                assert(self.forbidden_stops()[i as int] == self.forbidden_stops@[i as int]@);
                return false;
            }
            i += 1;
        }
        if self.allowed_stops.len() == 0 {
            return true;
        }
        let mut i: usize = 0;
        while i < self.allowed_stops.len()
            invariant
                i <= self.allowed_stops@.len(),
                !some_applies_on_stop(self.forbidden_stops(), *names),
                forall|j: int|
                    0 <= j < i ==> names.name_of_kind((#[trigger] self.allowed_stops()[j]).0)
                        != self.allowed_stops()[j].1,
            decreases self.allowed_stops@.len() - i,
        {
            if self.allowed_stops[i].applies_on(names) {
                assert(self.allowed_stops()[i as int] == self.allowed_stops@[i as int]@);
                return true;
            }
            i += 1;
        }
        false
    }
}

} // verus!
