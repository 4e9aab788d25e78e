//! The Universal Dividend rule: a per-member daily credit sized so that the
//! monetary mass grows by a fixed fraction per semester.
//!
//! The growth rate is held in parts per million so that the arithmetic is
//! exact and deterministic.
use vstd::prelude::*;

use crate::clock::now_ts;
use crate::{Amount, Timestamp};

verus! {

/// Parts per million in one whole.
pub const PPM: i64 = 1_000_000;

/// Seconds in one day.
pub const SECONDS_PER_DAY: i64 = 86_400;

/// Configuration of the Universal Dividend.
#[derive(Clone, Copy, Debug)]
pub struct DUConfig {
    /// Growth rate per semester, in parts per million (48_800 is 4.88%).
    pub growth_rate_per_semester: i64,
    /// Days in a semester.
    pub semester_days: i64,
    /// Unix timestamp of the currency's genesis.
    pub genesis_date: Timestamp,
}

impl DUConfig {
    /// A configuration makes sense when the rate is a fraction between zero
    /// and one whole, and the semester has at least one day.
    pub open spec fn wf(self) -> bool {
        0 <= self.growth_rate_per_semester <= PPM && self.semester_days > 0
    }
}

impl Default for DUConfig {
    /// The default configuration: 4.88% per semester of 183 days, genesis at
    /// the moment of construction.
    fn default() -> (r: Self)
        ensures
            r.growth_rate_per_semester == 48_800,
            r.semester_days == 183,
            r.wf(),
    {
        DUConfig { growth_rate_per_semester: 48_800, semester_days: 183, genesis_date: now_ts() }
    }
}

/// The dividend credited to each member over a whole semester: the growth
/// fraction of the mass, split over the members; zero without members.
pub open spec fn spec_semester_du(config: DUConfig, mass: int, members: int) -> int {
    if members == 0 {
        0
    } else {
        mass * config.growth_rate_per_semester / members / (PPM as int)
    }
}

/// The daily dividend per member at a given time: the semester dividend
/// spread over the semester's days; zero without members or before genesis.
pub open spec fn spec_daily_du(config: DUConfig, mass: int, members: int, timestamp: int) -> int {
    if members == 0 || timestamp < config.genesis_date {
        0
    } else {
        spec_semester_du(config, mass, members) / (config.semester_days as int)
    }
}

/// With a well-formed configuration and a non-negative mass, the semester
/// dividend lies between zero and the mass itself.
pub proof fn lemma_semester_du_bounds(config: DUConfig, mass: int, members: int)
    requires
        config.wf(),
        0 <= mass,
        0 <= members,
    ensures
        0 <= spec_semester_du(config, mass, members) <= mass,
{
    if members > 0 {
        let g = config.growth_rate_per_semester as int;
        let p = PPM as int;
        let scaled = mass * g;
        assert(0 <= mass * g <= mass * p) by (nonlinear_arith)
            requires
                0 <= mass,
                0 <= g <= p;
        assert(0 <= scaled / members <= scaled) by (nonlinear_arith)
            requires
                scaled >= 0,
                members >= 1;
        assert(scaled / members / p <= scaled / p) by (nonlinear_arith)
            requires
                scaled >= 0,
                members >= 1,
                p >= 1;
        assert(scaled / p <= mass) by (nonlinear_arith)
            requires
                scaled <= mass * p,
                p >= 1,
                0 <= mass;
        assert(scaled / members / p >= 0) by (nonlinear_arith)
            requires
                scaled >= 0,
                members >= 1,
                p >= 1;
    }
}

/// With a well-formed configuration and a non-negative mass, the daily
/// dividend lies between zero and the mass itself.
pub proof fn lemma_daily_du_bounds(config: DUConfig, mass: int, members: int, timestamp: int)
    requires
        config.wf(),
        0 <= mass,
        0 <= members,
    ensures
        0 <= spec_daily_du(config, mass, members, timestamp) <= mass,
{
    if members > 0 && timestamp >= config.genesis_date {
        lemma_semester_du_bounds(config, mass, members);
        let s = spec_semester_du(config, mass, members);
        let d = config.semester_days as int;
        assert(0 <= s / d <= s) by (nonlinear_arith)
            requires
                s >= 0,
                d >= 1;
    }
}

/// Calculator of the Universal Dividend.
#[derive(Clone, Copy, Debug)]
pub struct DUCalculator {
    config: DUConfig,
}

impl DUCalculator {
    /// The configuration the calculator was built with.
    pub closed spec fn spec_config(self) -> DUConfig {
        self.config
    }

    /// Creates a calculator over the given configuration.
    pub fn new(config: DUConfig) -> (r: Self)
        ensures
            r.spec_config() == config,
    {
        DUCalculator { config }
    }

    /// The semester dividend per member, computed exactly.
    fn semester_per_member(&self, current_mass: Amount, member_count: u64) -> (r: i64)
        requires
            self.spec_config().wf(),
            current_mass >= 0,
        ensures
            r == spec_semester_du(self.spec_config(), current_mass as int, member_count as int),
    {
        if member_count == 0 {
            return 0;
        }
        proof {
            lemma_semester_du_bounds(self.config, current_mass as int, member_count as int);
            assert((current_mass as int) * (self.config.growth_rate_per_semester as int) <= (
            i64::MAX as int) * (PPM as int)) by (nonlinear_arith)
                requires
                    0 <= current_mass as int <= i64::MAX as int,
                    0 <= self.config.growth_rate_per_semester as int <= PPM as int;
        }
        let scaled: u128 = (current_mass as u128) * (self.config.growth_rate_per_semester as u128);
        let per_member: u128 = scaled / (member_count as u128) / (PPM as u128);
        per_member as i64
    }

    /// The daily dividend per member for the given mass, member count and
    /// time.
    pub fn calculate_du(&self, current_mass: Amount, member_count: u64, timestamp: Timestamp) -> (r:
        Amount)
        requires
            self.spec_config().wf(),
            current_mass >= 0,
        ensures
            r == spec_daily_du(
                self.spec_config(),
                current_mass as int,
                member_count as int,
                timestamp as int,
            ),
            0 <= r <= current_mass,
    {
        proof {
            lemma_daily_du_bounds(
                self.config,
                current_mass as int,
                member_count as int,
                timestamp as int,
            );
        }
        if member_count == 0 {
            return 0;
        }
        if timestamp < self.config.genesis_date {
            return 0;
        }
        let per_member = self.semester_per_member(current_mass, member_count);
        proof {
            lemma_semester_du_bounds(self.config, current_mass as int, member_count as int);
        }
        ((per_member as u128) / (self.config.semester_days as u128)) as i64
    }

    /// The daily dividend per member at the current time.
    pub fn calculate_current_du(&self, current_mass: Amount, member_count: u64) -> (r: Amount)
        requires
            self.spec_config().wf(),
            current_mass >= 0,
        ensures
            exists|t: int|
                r == spec_daily_du(self.spec_config(), current_mass as int, member_count as int, t),
            0 <= r <= current_mass,
    {
        let now = now_ts();
        let r = self.calculate_du(current_mass, member_count, now);
        proof {
            assert(r == spec_daily_du(
                self.spec_config(),
                current_mass as int,
                member_count as int,
                now as int,
            ));
        }
        r
    }

    /// Whether a whole semester of days has elapsed since the last
    /// re-evaluation.
    pub fn should_reevaluate(&self, last_reevaluation: Timestamp, current_timestamp: Timestamp)
        -> (r: bool)
        requires
            self.spec_config().wf(),
            i64::MIN as int <= current_timestamp as int - last_reevaluation as int <= i64::MAX
                as int,
        ensures
            r == ((current_timestamp - last_reevaluation) / (SECONDS_PER_DAY as int)
                >= self.spec_config().semester_days),
    {
        if current_timestamp < last_reevaluation {
            proof {
                assert((current_timestamp - last_reevaluation) / (SECONDS_PER_DAY as int) <= 0)
                    by (nonlinear_arith)
                    requires
                        (current_timestamp as int - last_reevaluation as int) < 0;
            }
            return false;
        }
        let days_since = (current_timestamp - last_reevaluation) / SECONDS_PER_DAY;
        days_since >= self.config.semester_days
    }

    /// How many days remain until the next re-evaluation; zero when it is
    /// due.
    pub fn days_until_reevaluation(
        &self,
        last_reevaluation: Timestamp,
        current_timestamp: Timestamp,
    ) -> (r: i64)
        requires
            self.spec_config().wf(),
            last_reevaluation <= current_timestamp,
            current_timestamp as int - last_reevaluation as int <= i64::MAX as int,
        ensures
            r == if self.spec_config().semester_days - (current_timestamp - last_reevaluation) / (
            SECONDS_PER_DAY as int) >= 0 {
                self.spec_config().semester_days - (current_timestamp - last_reevaluation) / (
                SECONDS_PER_DAY as int)
            } else {
                0
            },
    {
        let days_since = (current_timestamp - last_reevaluation) / SECONDS_PER_DAY;
        if days_since < self.config.semester_days {
            self.config.semester_days - days_since
        } else {
            0
        }
    }

    /// The mass the currency would reach after one semester of growth.
    pub fn projected_mass_after_semester(&self, current_mass: Amount) -> (r: Amount)
        requires
            self.spec_config().wf(),
            current_mass >= 0,
            current_mass as int + current_mass as int
                * self.spec_config().growth_rate_per_semester / (PPM as int) <= i64::MAX as int,
        ensures
            r == current_mass as int + current_mass as int
                * self.spec_config().growth_rate_per_semester / (PPM as int),
    {
        proof {
            let m = current_mass as int;
            let g = self.config.growth_rate_per_semester as int;
            let p = PPM as int;
            assert(0 <= m * g <= m * p) by (nonlinear_arith)
                requires
                    0 <= m,
                    0 <= g <= p;
            assert(m * g <= (i64::MAX as int) * p) by (nonlinear_arith)
                requires
                    0 <= m <= i64::MAX as int,
                    0 <= g <= p;
            assert(m * g / p <= m) by (nonlinear_arith)
                requires
                    m * g <= m * p,
                    p >= 1,
                    0 <= m;
            assert(m * g / p >= 0) by (nonlinear_arith)
                requires
                    m * g >= 0,
                    p >= 1;
        }
        let growth: u128 = (current_mass as u128) * (self.config.growth_rate_per_semester as u128)
            / (PPM as u128);
        proof {
            assert(growth == (current_mass as int) * (
            self.config.growth_rate_per_semester as int) / (PPM as int));
            assert(growth <= current_mass as int);
            assert(self.spec_config() == self.config);
            assert(current_mass as int + growth <= i64::MAX as int);
        }
        (current_mass as u128 + growth) as i64
    }

    /// The dividend credited to each member over a whole semester.
    pub fn semester_du_total(&self, current_mass: Amount, member_count: u64) -> (r: Amount)
        requires
            self.spec_config().wf(),
            current_mass >= 0,
        ensures
            r == spec_semester_du(self.spec_config(), current_mass as int, member_count as int),
    {
        self.semester_per_member(current_mass, member_count)
    }
}

} // verus!
