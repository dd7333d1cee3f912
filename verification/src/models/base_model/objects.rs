use vstd::prelude::*;

use crate::dates::Date;
use crate::text::str_equals;

verus! {

/// An object of the transit data that has an id
pub trait HasId {
    /// The id of the object
    spec fn id_view(&self) -> Seq<char>;

    /// The id of the object
    fn id_str(&self) -> (r: &str)
        ensures
            r@ == self.id_view(),
    ;
}

/// The index of the first object of `items` whose id is `id`, if there is one
pub open spec fn index_of_id<T: HasId>(items: Seq<T>, id: Seq<char>) -> Option<nat>
    decreases items.len(),
{
    if items.len() == 0 {
        None
    } else if items[0].id_view() == id {
        Some(0)
    } else {
        match index_of_id(items.drop_first(), id) {
            Some(p) => Some(p + 1),
            None => None,
        }
    }
}

/// Some object of `items` has the id `id`.
pub open spec fn contains_id<T: HasId>(items: Seq<T>, id: Seq<char>) -> bool {
    exists|j: int| 0 <= j < items.len() && (#[trigger] items[j]).id_view() == id
}

/// Past objects whose id is not `id`, the first index of `id` is that in the rest, shifted.
proof fn lemma_index_of_id_skip<T: HasId>(items: Seq<T>, id: Seq<char>, i: int)
    requires
        0 <= i <= items.len(),
        forall|j: int| 0 <= j < i ==> (#[trigger] items[j]).id_view() != id,
    ensures
        index_of_id(items, id) == match index_of_id(items.skip(i), id) {
            Some(p) => Some((p + i) as nat),
            None => None::<nat>,
        },
    decreases i,
{
    if i == 0 {
        assert(items.skip(0) =~= items);
    } else {
        let rest = items.drop_first();
        assert forall|j: int| 0 <= j < i - 1 implies (#[trigger] rest[j]).id_view() != id by {
            assert(rest[j] == items[j + 1]);
        }
        lemma_index_of_id_skip(rest, id, i - 1);
        assert(rest.skip(i - 1) =~= items.skip(i));
    }
}

/// The first index of an id is that of an object with this id, and an id has a first index
/// exactly when some object has it.
pub proof fn lemma_index_of_id<T: HasId>(items: Seq<T>, id: Seq<char>)
    ensures
        index_of_id(items, id) matches Some(p) ==> p < items.len() && items[p as int].id_view()
            == id,
        index_of_id(items, id) is Some <==> contains_id(items, id),
    decreases items.len(),
{
    if items.len() > 0 {
        let rest = items.drop_first();
        lemma_index_of_id(rest, id);
        if contains_id(rest, id) {
            let j = choose|j: int| 0 <= j < rest.len() && (#[trigger] rest[j]).id_view() == id;
            assert(items[j + 1] == rest[j]);
        }
        if contains_id(items, id) && items[0].id_view() != id {
            let j = choose|j: int| 0 <= j < items.len() && (#[trigger] items[j]).id_view() == id;
            assert(rest[j - 1] == items[j]);
        }
    }
}

/// The index of the first object of `items` whose id is `id`, if there is one
pub fn find_by_id<T: HasId>(items: &Vec<T>, id: &str) -> (r: Option<usize>)
    ensures
        r matches Some(p) ==> index_of_id(items@, id@) == Some(p as nat),
        r is None ==> index_of_id(items@, id@) is None,
{
    let mut i: usize = 0;
    while i < items.len()
        invariant
            i <= items@.len(),
            forall|j: int| 0 <= j < i ==> (#[trigger] items@[j]).id_view() != id@,
        decreases items@.len() - i,
    {
        if str_equals(items[i].id_str(), id) {
            proof {
                lemma_index_of_id_skip(items@, id@, i as int);
            }
            return Some(i);
        }
        i += 1;
    }
    proof {
        lemma_index_of_id_skip(items@, id@, i as int);
    }
    None
}

/// A color, by its red, green and blue components
#[derive(Debug, Clone, Copy, PartialEq, Eq, Structural)]
pub struct Rgb {
    pub red: u8,
    pub green: u8,
    pub blue: u8,
}

/// The address of a stop point
pub struct Address {
    pub id: String,
    pub street_name: String,
    pub house_number: Option<String>,
}

/// A stop point, where vehicles stop: its stop area and the address it is at are given by
/// their ids
pub struct StopPoint {
    pub id: String,
    pub name: String,
    pub stop_area_id: String,
    pub address_id: Option<String>,
    pub platform_code: Option<String>,
    pub fare_zone_id: Option<String>,
    pub codes: Vec<(String, String)>,
}

/// A stop area, the group of stop points of a place, with the name of its timezone if known
pub struct StopArea {
    pub id: String,
    pub name: String,
    pub codes: Vec<(String, String)>,
    pub timezone: Option<String>,
}

/// A stop of a vehicle journey at a stop point, given by its index among the stop points:
/// its times in seconds since the start of the day in the timezone of the vehicle journey,
/// and whether travelers can board (`pickup_type` 0) and debark (`drop_off_type` 0)
#[derive(Debug, Clone, Copy)]
pub struct StopTime {
    pub stop_point_idx: usize,
    pub sequence: u32,
    pub arrival_time: u32,
    pub departure_time: u32,
    pub boarding_duration: u16,
    pub alighting_duration: u16,
    pub pickup_type: u8,
    pub drop_off_type: u8,
}

/// A vehicle journey, with its route, the calendar of its days of service and its physical
/// mode given by their ids
pub struct VehicleJourney {
    pub id: String,
    pub route_id: String,
    pub service_id: String,
    pub physical_mode_id: String,
    pub headsign: Option<String>,
    pub short_name: Option<String>,
    pub stop_times: Vec<StopTime>,
}

/// A route of a line, with the id of the stop area it goes to if known
pub struct Route {
    pub id: String,
    pub line_id: String,
    pub destination_id: Option<String>,
}

/// A line of a network, with its commercial mode given by its id
pub struct Line {
    pub id: String,
    pub code: Option<String>,
    pub network_id: String,
    pub commercial_mode_id: String,
    pub color: Option<Rgb>,
    pub text_color: Option<Rgb>,
}

/// A network, with the name of its timezone if known
pub struct Network {
    pub id: String,
    pub timezone: Option<String>,
}

/// The dates of service of the vehicle journeys that have it as their calendar
pub struct Calendar {
    pub id: String,
    pub dates: Vec<Date>,
}

/// A mode of transport, physical or commercial
pub struct Mode {
    pub id: String,
    pub name: String,
}

/// A walk from a stop point to another, both given by their ids, with its walking time and
/// its time including a margin, in seconds, when known
pub struct Transfer {
    pub from_stop_id: String,
    pub to_stop_id: String,
    pub min_transfer_time: Option<u32>,
    pub real_min_transfer_time: Option<u32>,
}

impl HasId for Address {
    open spec fn id_view(&self) -> Seq<char> {
        self.id@
    }

    fn id_str(&self) -> (r: &str) {
        self.id.as_str()
    }
}

impl HasId for StopPoint {
    open spec fn id_view(&self) -> Seq<char> {
        self.id@
    }

    fn id_str(&self) -> (r: &str) {
        self.id.as_str()
    }
}

impl HasId for StopArea {
    open spec fn id_view(&self) -> Seq<char> {
        self.id@
    }

    fn id_str(&self) -> (r: &str) {
        self.id.as_str()
    }
}

impl HasId for VehicleJourney {
    open spec fn id_view(&self) -> Seq<char> {
        self.id@
    }

    fn id_str(&self) -> (r: &str) {
        self.id.as_str()
    }
}

impl HasId for Route {
    open spec fn id_view(&self) -> Seq<char> {
        self.id@
    }

    fn id_str(&self) -> (r: &str) {
        self.id.as_str()
    }
}

impl HasId for Line {
    open spec fn id_view(&self) -> Seq<char> {
        self.id@
    }

    fn id_str(&self) -> (r: &str) {
        self.id.as_str()
    }
}

impl HasId for Network {
    open spec fn id_view(&self) -> Seq<char> {
        self.id@
    }

    fn id_str(&self) -> (r: &str) {
        self.id.as_str()
    }
}

impl HasId for Calendar {
    open spec fn id_view(&self) -> Seq<char> {
        self.id@
    }

    fn id_str(&self) -> (r: &str) {
        self.id.as_str()
    }
}

impl HasId for Mode {
    open spec fn id_view(&self) -> Seq<char> {
        self.id@
    }

    fn id_str(&self) -> (r: &str) {
        self.id.as_str()
    }
}

} // verus!
