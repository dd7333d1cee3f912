use loki::config::request_params::{
    default_leg_arrival_penalty, default_leg_walking_penalty, default_max_journey_duration,
    default_max_nb_of_legs, RequestParams as ParamsWithDefaults,
};
use loki::config::{CriteriaImplem, DataImplem, RequestParams, RequestType};

#[test]
fn data_implem_names() {
    assert_eq!(DataImplem::from_name("periodic").ok(), Some(DataImplem::Periodic));
    assert_eq!(DataImplem::from_name("daily").ok(), Some(DataImplem::Daily));
    assert_eq!(DataImplem::from_name("loads_periodic").ok(), Some(DataImplem::LoadsPeriodic));
    assert_eq!(DataImplem::from_name("loads_daily").ok(), Some(DataImplem::LoadsDaily));
    let error = DataImplem::from_name("weekly").err().unwrap();
    assert_eq!(error.to_string(), "Bad implem configuration given : `weekly`");
    assert_eq!(DataImplem::LoadsDaily.to_string(), "loads_daily");
    let parsed: DataImplem = "daily".parse().ok().unwrap();
    assert_eq!(parsed, DataImplem::Daily);
}

#[test]
fn criteria_and_request_type_names() {
    assert_eq!(CriteriaImplem::from_name("loads").ok(), Some(CriteriaImplem::Loads));
    assert_eq!(CriteriaImplem::from_name("classic").ok(), Some(CriteriaImplem::Basic));
    assert!(CriteriaImplem::from_name("basic").is_err());
    assert_eq!(CriteriaImplem::Basic.to_string(), "basic");
    assert_eq!(
        CriteriaImplem::from_name("x").err().unwrap().to_string(),
        "Bad criteria_implem given : `x`"
    );
    assert_eq!(RequestType::from_name("loads").ok(), Some(RequestType::LoadsDepartAfter));
    assert_eq!(RequestType::from_name("classic").ok(), Some(RequestType::BasicDepartAfter));
    assert_eq!(RequestType::BasicDepartAfter.to_string(), "basic");
    assert_eq!(
        RequestType::from_name("").err().unwrap().to_string(),
        "Bad request type given : ``"
    );
}

#[test]
fn request_params_defaults() {
    assert_eq!(default_leg_arrival_penalty().total_seconds(), 120);
    assert_eq!(default_leg_walking_penalty().total_seconds(), 120);
    assert_eq!(default_max_nb_of_legs(), 10);
    assert_eq!(default_max_journey_duration().total_seconds(), 86400);
    let params = ParamsWithDefaults::default();
    assert_eq!(params.max_nb_of_legs, 10);
    assert_eq!(params.max_journey_duration.total_seconds(), 86400);
    let params = RequestParams::default();
    assert_eq!(params.leg_arrival_penalty.total_seconds(), 120);
    assert_eq!(params.leg_walking_penalty.total_seconds(), 120);
}
