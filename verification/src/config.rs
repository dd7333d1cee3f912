pub mod request_params;

use vstd::prelude::*;

use crate::laxatips_daily_data::time::PositiveDuration;
use crate::text::{request_params_text, request_params_to_string, str_equals};
use vstd::string::StringExecFns;

verus! {

/// How the transit data is stored
#[derive(Debug, PartialEq, Eq, Structural, Clone, Copy)]
pub enum DataImplem {
    Periodic,
    Daily,
    LoadsPeriodic,
    LoadsDaily,
}

/// The data implementation named `s`, if any
pub open spec fn data_implem_of_name(s: Seq<char>) -> Option<DataImplem> {
    if s == "periodic"@ {
        Some(DataImplem::Periodic)
    } else if s == "daily"@ {
        Some(DataImplem::Daily)
    } else if s == "loads_periodic"@ {
        Some(DataImplem::LoadsPeriodic)
    } else if s == "loads_daily"@ {
        Some(DataImplem::LoadsDaily)
    } else {
        None
    }
}

/// The name under which a data implementation is displayed
pub open spec fn data_implem_name(implem: DataImplem) -> Seq<char> {
    match implem {
        DataImplem::Periodic => "periodic"@,
        DataImplem::Daily => "daily"@,
        DataImplem::LoadsPeriodic => "loads_periodic"@,
        DataImplem::LoadsDaily => "loads_daily"@,
    }
}

/// The error of a name that names no data implementation
#[derive(Debug)]
pub struct DataImplemConfigError {
    implem_name: String,
}

impl DataImplemConfigError {
    /// The name that was given
    pub closed spec fn name(&self) -> Seq<char> {
        self.implem_name@
    }

    /// The message of the error
    pub fn to_string(&self) -> (r: String)
        ensures
            r@ == "Bad implem configuration given : `"@ + self.name() + "`"@,
    {
        "Bad implem configuration given : `".to_owned().concat(self.implem_name.as_str()).concat("`")
    }
}

impl DataImplem {
    /// The data implementation named `s`: "periodic", "daily", "loads_periodic" or
    /// "loads_daily"
    pub fn from_name(s: &str) -> (r: Result<Self, DataImplemConfigError>)
        ensures
            match data_implem_of_name(s@) {
                Some(implem) => r == Ok::<DataImplem, DataImplemConfigError>(implem),
                None => r is Err && r->Err_0.name() == s@,
            },
    {
        if str_equals(s, "periodic") {
            Ok(DataImplem::Periodic)
        } else if str_equals(s, "daily") {
            Ok(DataImplem::Daily)
        } else if str_equals(s, "loads_periodic") {
            Ok(DataImplem::LoadsPeriodic)
        } else if str_equals(s, "loads_daily") {
            Ok(DataImplem::LoadsDaily)
        } else {
            Err(DataImplemConfigError { implem_name: s.to_owned() })
        }
    }

    /// The name under which the data implementation is displayed
    pub fn to_string(&self) -> (r: String)
        ensures
            r@ == data_implem_name(*self),
    {
        match self {
            DataImplem::Periodic => "periodic".to_owned(),
            DataImplem::Daily => "daily".to_owned(),
            DataImplem::LoadsPeriodic => "loads_periodic".to_owned(),
            DataImplem::LoadsDaily => "loads_daily".to_owned(),
        }
    }
}

impl std::str::FromStr for DataImplem {
    type Err = DataImplemConfigError;

    fn from_str(s: &str) -> Result<Self, Self::Err> {
        DataImplem::from_name(s)
    }
}

/// Reading back the displayed name of a data implementation gives that data
/// implementation.
pub proof fn lemma_data_implem_name_round_trip(implem: DataImplem)
    ensures
        data_implem_of_name(data_implem_name(implem)) == Some(implem),
{
    reveal_strlit("periodic");
    reveal_strlit("daily");
    reveal_strlit("loads_periodic");
    reveal_strlit("loads_daily");
    assert("periodic"@.len() == 8);
    assert("daily"@.len() == 5);
    assert("loads_periodic"@.len() == 14);
    assert("loads_daily"@.len() == 11);
}

/// How the criteria of journeys are compared
#[derive(Debug, PartialEq, Eq, Structural, Clone, Copy)]
pub enum CriteriaImplem {
    Loads,
    Basic,
}

/// The criteria implementation named `s`, if any
pub open spec fn criteria_implem_of_name(s: Seq<char>) -> Option<CriteriaImplem> {
    if s == "loads"@ {
        Some(CriteriaImplem::Loads)
    } else if s == "classic"@ {
        Some(CriteriaImplem::Basic)
    } else {
        None
    }
}

/// The name under which a criteria implementation is displayed
pub open spec fn criteria_implem_name(implem: CriteriaImplem) -> Seq<char> {
    match implem {
        CriteriaImplem::Loads => "loads"@,
        CriteriaImplem::Basic => "basic"@,
    }
}

/// The error of a name that names no criteria implementation
#[derive(Debug)]
pub struct CriteriaImplemConfigError {
    criteria_implem_name: String,
}

impl CriteriaImplemConfigError {
    /// The name that was given
    pub closed spec fn name(&self) -> Seq<char> {
        self.criteria_implem_name@
    }

    /// The message of the error
    pub fn to_string(&self) -> (r: String)
        ensures
            r@ == "Bad criteria_implem given : `"@ + self.name() + "`"@,
    {
        "Bad criteria_implem given : `".to_owned().concat(self.criteria_implem_name.as_str()).concat(
            "`",
        )
    }
}

impl CriteriaImplem {
    /// The criteria implementation named `s`: "loads" or "classic"
    pub fn from_name(s: &str) -> (r: Result<Self, CriteriaImplemConfigError>)
        ensures
            match criteria_implem_of_name(s@) {
                Some(implem) => r == Ok::<CriteriaImplem, CriteriaImplemConfigError>(implem),
                None => r is Err && r->Err_0.name() == s@,
            },
    {
        if str_equals(s, "loads") {
            Ok(CriteriaImplem::Loads)
        } else if str_equals(s, "classic") {
            Ok(CriteriaImplem::Basic)
        } else {
            Err(CriteriaImplemConfigError { criteria_implem_name: s.to_owned() })
        }
    }

    /// The name under which the criteria implementation is displayed
    pub fn to_string(&self) -> (r: String)
        ensures
            r@ == criteria_implem_name(*self),
    {
        match self {
            CriteriaImplem::Loads => "loads".to_owned(),
            CriteriaImplem::Basic => "basic".to_owned(),
        }
    }
}

impl std::str::FromStr for CriteriaImplem {
    type Err = CriteriaImplemConfigError;

    fn from_str(s: &str) -> Result<Self, Self::Err> {
        CriteriaImplem::from_name(s)
    }
}

/// Reading back the displayed name of a criteria implementation gives it back, except for
/// `Basic`, which is displayed as "basic" and read from "classic".
pub proof fn lemma_criteria_implem_name_round_trip(implem: CriteriaImplem)
    requires
        implem != CriteriaImplem::Basic,
    ensures
        criteria_implem_of_name(criteria_implem_name(implem)) == Some(implem),
{
    reveal_strlit("loads");
    reveal_strlit("classic");
    assert("loads"@.len() == 5);
    assert("classic"@.len() == 7);
}

/// The kind of request to answer
#[derive(Debug, PartialEq, Eq, Structural, Clone, Copy)]
pub enum RequestType {
    LoadsDepartAfter,
    BasicDepartAfter,
}

/// The request type named `s`, if any
pub open spec fn request_type_of_name(s: Seq<char>) -> Option<RequestType> {
    if s == "loads"@ {
        Some(RequestType::LoadsDepartAfter)
    } else if s == "classic"@ {
        Some(RequestType::BasicDepartAfter)
    } else {
        None
    }
}

/// The name under which a request type is displayed
pub open spec fn request_type_name(request_type: RequestType) -> Seq<char> {
    match request_type {
        RequestType::LoadsDepartAfter => "loads"@,
        RequestType::BasicDepartAfter => "basic"@,
    }
}

/// The error of a name that names no request type
#[derive(Debug)]
pub struct RequestTypeConfigError {
    request_type_name: String,
}

impl RequestTypeConfigError {
    /// The name that was given
    pub closed spec fn name(&self) -> Seq<char> {
        self.request_type_name@
    }

    /// The message of the error
    pub fn to_string(&self) -> (r: String)
        ensures
            r@ == "Bad request type given : `"@ + self.name() + "`"@,
    {
        "Bad request type given : `".to_owned().concat(self.request_type_name.as_str()).concat("`")
    }
}

impl RequestType {
    /// The request type named `s`: "loads" or "classic"
    pub fn from_name(s: &str) -> (r: Result<Self, RequestTypeConfigError>)
        ensures
            match request_type_of_name(s@) {
                Some(request_type) => r == Ok::<RequestType, RequestTypeConfigError>(request_type),
                None => r is Err && r->Err_0.name() == s@,
            },
    {
        if str_equals(s, "loads") {
            Ok(RequestType::LoadsDepartAfter)
        } else if str_equals(s, "classic") {
            Ok(RequestType::BasicDepartAfter)
        } else {
            Err(RequestTypeConfigError { request_type_name: s.to_owned() })
        }
    }

    /// The name under which the request type is displayed
    pub fn to_string(&self) -> (r: String)
        ensures
            r@ == request_type_name(*self),
    {
        match self {
            RequestType::LoadsDepartAfter => "loads".to_owned(),
            RequestType::BasicDepartAfter => "basic".to_owned(),
        }
    }
}

impl std::str::FromStr for RequestType {
    type Err = RequestTypeConfigError;

    fn from_str(s: &str) -> Result<Self, Self::Err> {
        RequestType::from_name(s)
    }
}

/// Reading back the displayed name of a request type gives it back, except for
/// `BasicDepartAfter`, which is displayed as "basic" and read from "classic".
pub proof fn lemma_request_type_name_round_trip(request_type: RequestType)
    requires
        request_type != RequestType::BasicDepartAfter,
    ensures
        request_type_of_name(request_type_name(request_type)) == Some(request_type),
{
    reveal_strlit("loads");
    reveal_strlit("classic");
    assert("loads"@.len() == 5);
    assert("classic"@.len() == 7);
}

/// The parameters of a request
pub struct RequestParams {
    /// penalty to apply to arrival time for each vehicle leg in a journey
    pub leg_arrival_penalty: PositiveDuration,
    /// penalty to apply to walking time for each vehicle leg in a journey
    pub leg_walking_penalty: PositiveDuration,
    /// maximum number of vehicle legs in a journey
    pub max_nb_of_legs: u8,
    /// maximum duration of a journey
    pub max_journey_duration: PositiveDuration,
}

impl Default for RequestParams {
    fn default() -> (r: Self)
        ensures
            r.leg_arrival_penalty@ == 120,
            r.leg_walking_penalty@ == 120,
            r.max_nb_of_legs == 10,
            r.max_journey_duration@ == 86400,
    {
        Self {
            leg_arrival_penalty: request_params::default_leg_arrival_penalty(),
            leg_walking_penalty: request_params::default_leg_walking_penalty(),
            max_nb_of_legs: request_params::default_max_nb_of_legs(),
            max_journey_duration: request_params::default_max_journey_duration(),
        }
    }
}

impl RequestParams {
    /// The parameters as command line arguments: `--leg_arrival_penalty 2m00s
    /// --leg_walking_penalty 2m00s --max_nb_of_legs 10 --max_journey_duration 24h00m00s`
    pub fn to_string(&self) -> (r: String)
        ensures
            r@ == request_params_text(
                self.leg_arrival_penalty@,
                self.leg_walking_penalty@,
                self.max_nb_of_legs as nat,
                self.max_journey_duration@,
            ),
    {
        proof {
            self.leg_arrival_penalty.lemma_view_is_seconds();
            self.leg_walking_penalty.lemma_view_is_seconds();
            self.max_journey_duration.lemma_view_is_seconds();
        }
        request_params_to_string(
            self.leg_arrival_penalty.seconds,
            self.leg_walking_penalty.seconds,
            self.max_nb_of_legs,
            self.max_journey_duration.seconds,
        )
    }
}

} // verus!
