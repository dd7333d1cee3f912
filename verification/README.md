# loki

A library for multicriteria public transit journey planning, verified with Verus.

It computes Pareto-optimal journeys with a Raptor-style algorithm over an abstract
public transit network, and holds the data that such a network is built from:
timetables of vehicles, calendars of days in timezones, chain decompositions of
vectors of times, loads of vehicles, real-time updates of trips, and the filters of a
request.

## Layout

- `src/` is the verified library. Each public function states what it returns or
  changes in its `ensures`; the laws that relate several functions are public proof
  functions beside them.
  - `engine/`: Pareto fronts, the tree of partial journeys, and the multicriteria
    Raptor computation over the `PublicTransit` interface. When the request behaves as
    the engine expects (`rounds::behaves`), the journeys found cover every journey of
    the request (`completeness.rs`, `rounds.rs`), and what the computation ends with,
    its number of rounds included, is a function of the request (`engine_state.rs`).
  - `chain_decomposition.rs`, `data/`: vectors split into chains of pairwise
    comparable ones, and vehicles ordered by their times.
  - `laxatips_data/`, `laxatips_daily_data/`: times, calendars, timetables and the
    stops of the transit data.
  - `loads_data/`, `occupancy_data/`, `crowding_data.rs`: loads of vehicles and how they
    compare.
  - `models/`, `realtime/`: the base model as the library reads it, real-time updates
    of trips, and periods of disruptions.
  - `config.rs`, `filters.rs`: request parameters and filters.
- `tests/` exercises the library on concrete values.
- `app/` holds what talks to the outside world: reading occupancy files, conversions
  to and from `chrono`'s dates, and text forms of times and durations.
