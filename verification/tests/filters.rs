use loki::filters::{parse_filter, Filter, Filters, KnownIds, StopFilter, StopPointNames, VehicleFilter, VehicleJourneyNames};

fn known() -> KnownIds {
    KnownIds {
        lines: vec!["A".to_string(), "B".to_string()],
        routes: vec!["R1".to_string()],
        networks: vec!["RATP".to_string()],
        physical_modes: vec!["Bus".to_string()],
        commercial_modes: vec!["Metro".to_string()],
        stop_points: vec!["SP1".to_string()],
        stop_areas: vec!["SA1".to_string()],
    }
}

fn vehicle(line: &str) -> VehicleJourneyNames {
    VehicleJourneyNames {
        line: line.to_string(),
        route: "R1".to_string(),
        network: "RATP".to_string(),
        physical_mode: "Bus".to_string(),
        commercial_mode: "Metro".to_string(),
    }
}

#[test]
fn parse_known_and_unknown_ids() {
    let known = known();
    assert!(matches!(parse_filter(&known, "line:A", "test"), Ok(Filter::Vehicle(VehicleFilter::Line("A")))));
    assert!(matches!(parse_filter(&known, "route:R1", "test"), Ok(Filter::Vehicle(VehicleFilter::Route("R1")))));
    assert!(matches!(parse_filter(&known, "network:RATP", "test"), Ok(Filter::Vehicle(VehicleFilter::Network("RATP")))));
    assert!(matches!(
        parse_filter(&known, "physical_mode:Bus", "test"),
        Ok(Filter::Vehicle(VehicleFilter::PhysicalMode("Bus")))
    ));
    assert!(matches!(
        parse_filter(&known, "commercial_mode:Metro", "test"),
        Ok(Filter::Vehicle(VehicleFilter::CommercialMode("Metro")))
    ));
    assert!(matches!(parse_filter(&known, "stop_point:SP1", "test"), Ok(Filter::Stop(StopFilter::StopPoint("SP1")))));
    assert!(matches!(parse_filter(&known, "stop_area:SA1", "test"), Ok(Filter::Stop(StopFilter::StopArea("SA1")))));
    assert!(parse_filter(&known, "line:C", "test").is_err());
    assert!(parse_filter(&known, "A", "test").is_err());
    assert!(parse_filter(&known, "stop_area:SP1", "test").is_err());
}

#[test]
fn no_filter_gives_none() {
    let known = known();
    let none: Vec<String> = vec![];
    let unknown = vec!["line:Z".to_string()];
    assert!(Filters::new(&known, &none, &none).is_none());
    assert!(Filters::new(&known, &unknown, &unknown).is_none());
}

#[test]
fn forbidden_filters_win() {
    let known = known();
    let forbidden = vec!["line:A".to_string()];
    let allowed = vec!["network:RATP".to_string()];
    let filters = Filters::new(&known, &forbidden, &allowed).unwrap();
    assert!(!filters.is_vehicle_journey_valid(&vehicle("A")));
    assert!(filters.is_vehicle_journey_valid(&vehicle("B")));
}

#[test]
fn allowed_filters_restrict() {
    let known = known();
    let forbidden: Vec<String> = vec![];
    let allowed = vec!["line:B".to_string(), "stop_area:SA1".to_string()];
    let filters = Filters::new(&known, &forbidden, &allowed).unwrap();
    assert!(!filters.is_vehicle_journey_valid(&vehicle("A")));
    assert!(filters.is_vehicle_journey_valid(&vehicle("B")));
    let in_area = StopPointNames { stop_point: "SP2".to_string(), stop_area: "SA1".to_string() };
    let elsewhere = StopPointNames { stop_point: "SP1".to_string(), stop_area: "SA2".to_string() };
    assert!(filters.is_stop_point_valid(&in_area));
    assert!(!filters.is_stop_point_valid(&elsewhere));
}

#[test]
fn filters_apply_on_their_kind() {
    assert!(VehicleFilter::Line("A").applies_on(&vehicle("A")));
    assert!(!VehicleFilter::Line("A").applies_on(&vehicle("B")));
    assert!(VehicleFilter::CommercialMode("Metro").applies_on(&vehicle("A")));
    let names = StopPointNames { stop_point: "SP1".to_string(), stop_area: "SA1".to_string() };
    assert!(StopFilter::StopPoint("SP1").applies_on(&names));
    assert!(!StopFilter::StopArea("SP1").applies_on(&names));
}
