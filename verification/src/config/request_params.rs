use vstd::prelude::*;

use crate::laxatips_daily_data::time::{
    duration_text_value,
    hms_seconds,
    lemma_duration_text_value,
    parse_duration,
    PositiveDuration,
};
use crate::text::{
    chars_of,
    digits_value,
    lemma_split_on_append,
    lemma_split_on_single,
    parse_unsigned,
    request_params_text,
    request_params_to_string,
    split_on,
    unsigned_value,
};

verus! {

/// The parameters of a request
#[derive(Debug, Clone)]
pub struct RequestParams {
    /// penalty to apply to arrival time for each vehicle leg in a journey
    pub leg_arrival_penalty: PositiveDuration,
    /// penalty to apply to walking time for each vehicle leg in a journey
    pub leg_walking_penalty: PositiveDuration,
    /// maximum number of vehicle legs in a journey
    pub max_nb_of_legs: u8,
    /// maximum duration of a journey
    pub max_journey_duration: PositiveDuration,
}

/// The default penalty on arrival time for each vehicle leg
pub const DEFAULT_LEG_ARRIVAL_PENALTY: &'static str = "00:02:00";

/// The default penalty on walking time for each vehicle leg
pub const DEFAULT_LEG_WALKING_PENALTY: &'static str = "00:02:00";

/// The default maximum number of vehicle legs
pub const DEFAULT_MAX_NB_LEGS: &'static str = "10";

/// The default maximum duration of a journey
pub const DEFAULT_MAX_JOURNEY_DURATION: &'static str = "24:00:00";

/// Three pieces of two digits joined by `:` split back into these pieces.
proof fn lemma_split_three(a: Seq<char>, b: Seq<char>, c: Seq<char>)
    requires
        a.len() == 2 && b.len() == 2 && c.len() == 2,
        a[0] != ':' && a[1] != ':' && b[0] != ':' && b[1] != ':' && c[0] != ':' && c[1] != ':',
    ensures
        split_on(a + seq![':'] + b + seq![':'] + c, ':') == seq![a, b, c],
{
    lemma_split_on_single(a, ':');
    lemma_split_on_append(a, b, ':');
    lemma_split_on_append(a + seq![':'] + b, c, ':');
    assert(seq![a].push(b).push(c) =~= seq![a, b, c]);
}

/// "00:02:00" stands for 120 seconds.
proof fn lemma_two_minutes()
    ensures
        duration_text_value("00:02:00"@) == Some(120nat),
{
    reveal_strlit("00:02:00");
    let (a, b, c) = (seq!['0', '0'], seq!['0', '2'], seq!['0', '0']);
    assert("00:02:00"@ =~= a + seq![':'] + b + seq![':'] + c);
    lemma_split_three(a, b, c);
    reveal_with_fuel(digits_value, 3);
    assert(seq!['0', '0'].drop_last() =~= seq!['0']);
    assert(seq!['0', '2'].drop_last() =~= seq!['0']);
    assert(seq!['0'].drop_last() =~= Seq::<char>::empty());
    assert(unsigned_value(seq!['0', '0'], u32::MAX as nat) == Some(0nat));
    assert(unsigned_value(seq!['0', '2'], u32::MAX as nat) == Some(2nat));
    assert(hms_seconds(0, 2, 0) == 120);
    lemma_duration_text_value("00:02:00"@, 0, 2, 0);
}

/// "24:00:00" stands for 86400 seconds.
proof fn lemma_one_day()
    ensures
        duration_text_value("24:00:00"@) == Some(86400nat),
{
    reveal_strlit("24:00:00");
    let (a, b, c) = (seq!['2', '4'], seq!['0', '0'], seq!['0', '0']);
    assert("24:00:00"@ =~= a + seq![':'] + b + seq![':'] + c);
    lemma_split_three(a, b, c);
    reveal_with_fuel(digits_value, 3);
    assert(seq!['0', '0'].drop_last() =~= seq!['0']);
    assert(seq!['2', '4'].drop_last() =~= seq!['2']);
    assert(seq!['0'].drop_last() =~= Seq::<char>::empty());
    assert(seq!['2'].drop_last() =~= Seq::<char>::empty());
    assert(unsigned_value(seq!['0', '0'], u32::MAX as nat) == Some(0nat));
    assert(unsigned_value(seq!['2', '4'], u32::MAX as nat) == Some(24nat));
    assert(hms_seconds(24, 0, 0) == 86400);
    lemma_duration_text_value("24:00:00"@, 24, 0, 0);
}

/// "10" stands for 10.
proof fn lemma_ten()
    ensures
        unsigned_value("10"@, u8::MAX as nat) == Some(10nat),
{
    reveal_strlit("10");
    reveal_with_fuel(digits_value, 3);
    assert("10"@.drop_last() =~= seq!['1']);
    assert(seq!['1'].drop_last() =~= Seq::<char>::empty());
}

/// The default penalty on arrival time for each vehicle leg: two minutes
pub fn default_leg_arrival_penalty() -> (r: PositiveDuration)
    ensures
        r@ == 120,
{
    proof {
        lemma_two_minutes();
    }
    parse_duration(DEFAULT_LEG_ARRIVAL_PENALTY).unwrap()
}

/// The default penalty on walking time for each vehicle leg: two minutes
pub fn default_leg_walking_penalty() -> (r: PositiveDuration)
    ensures
        r@ == 120,
{
    proof {
        lemma_two_minutes();
    }
    parse_duration(DEFAULT_LEG_WALKING_PENALTY).unwrap()
}

/// The default maximum number of vehicle legs: 10
pub fn default_max_nb_of_legs() -> (r: u8)
    ensures
        r == 10,
{
    proof {
        lemma_ten();
    }
    let chars = chars_of(DEFAULT_MAX_NB_LEGS);
    let value = parse_unsigned(&chars, 255).unwrap();
    value as u8
}

/// The default maximum duration of a journey: one day
pub fn default_max_journey_duration() -> (r: PositiveDuration)
    ensures
        r@ == 86400,
{
    proof {
        lemma_one_day();
    }
    parse_duration(DEFAULT_MAX_JOURNEY_DURATION).unwrap()
}

impl Default for RequestParams {
    fn default() -> (r: Self)
        ensures
            r.leg_arrival_penalty@ == 120,
            r.leg_walking_penalty@ == 120,
            r.max_nb_of_legs == 10,
            r.max_journey_duration@ == 86400,
    {
        Self {
            leg_arrival_penalty: default_leg_arrival_penalty(),
            leg_walking_penalty: default_leg_walking_penalty(),
            max_nb_of_legs: default_max_nb_of_legs(),
            max_journey_duration: default_max_journey_duration(),
        }
    }
}

impl RequestParams {
    /// The parameters as command line arguments: `--leg_arrival_penalty 2m00s
    /// --leg_walking_penalty 2m00s --max_nb_of_legs 10 --max_journey_duration 24h00m00s`
    pub fn to_string(&self) -> (r: String)
        ensures
            r@ == request_params_text(
                self.leg_arrival_penalty@,
                self.leg_walking_penalty@,
                self.max_nb_of_legs as nat,
                self.max_journey_duration@,
            ),
    {
        proof {
            self.leg_arrival_penalty.lemma_view_is_seconds();
            self.leg_walking_penalty.lemma_view_is_seconds();
            self.max_journey_duration.lemma_view_is_seconds();
        }
        request_params_to_string(
            self.leg_arrival_penalty.seconds,
            self.leg_walking_penalty.seconds,
            self.max_nb_of_legs,
            self.max_journey_duration.seconds,
        )
    }
}

} // verus!
