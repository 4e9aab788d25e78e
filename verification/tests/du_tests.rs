use mahala::du::{DUCalculator, DUConfig};
use mahala::MICRO;

#[test]
fn test_du_calculation() {
    let config = DUConfig::default();
    let calculator = DUCalculator::new(config);
    let current_mass = 1_000_000 * MICRO;
    let member_count = 1000;
    let du = calculator.calculate_current_du(current_mass, member_count);
    assert!(du > 0);
    assert!(du > MICRO / 10 && du < MICRO);
}

#[test]
fn test_du_zero_members() {
    let calculator = DUCalculator::new(DUConfig::default());
    let du = calculator.calculate_current_du(1_000_000 * MICRO, 0);
    assert_eq!(du, 0);
}

#[test]
fn test_reevaluation_check() {
    let config = DUConfig::default();
    let calculator = DUCalculator::new(config);
    let now = 1_700_000_000;
    let last_reeval = now - 100 * 86_400;
    assert!(!calculator.should_reevaluate(last_reeval, now));
    let old_reeval = now - 200 * 86_400;
    assert!(calculator.should_reevaluate(old_reeval, now));
}

#[test]
fn test_semester_du_total() {
    let calculator = DUCalculator::new(DUConfig::default());
    let current_mass = 1_000_000 * MICRO;
    let member_count = 1000;
    let semester_total = calculator.semester_du_total(current_mass, member_count);
    assert_eq!(semester_total, 48_800_000);
}

#[test]
fn daily_dividend_exact_numbers() {
    let config = DUConfig {
        growth_rate_per_semester: 48_800,
        semester_days: 183,
        genesis_date: 1_600_000_000,
    };
    let calculator = DUCalculator::new(config);
    let mass = 1_000_000 * MICRO;
    let members = 1000;
    let du = calculator.calculate_du(mass, members, 1_700_000_000);
    assert_eq!(du, 266_666);
    let post_mass = mass + du * members as i64;
    assert_eq!(post_mass, 1_000_266_666_000);
}

#[test]
fn dividend_zero_before_genesis() {
    let config = DUConfig {
        growth_rate_per_semester: 48_800,
        semester_days: 183,
        genesis_date: 1_700_000_000,
    };
    let calculator = DUCalculator::new(config);
    assert_eq!(calculator.calculate_du(1_000 * MICRO, 10, 1_600_000_000), 0);
}

#[test]
fn projected_mass_grows_by_rate() {
    let calculator = DUCalculator::new(DUConfig {
        growth_rate_per_semester: 48_800,
        semester_days: 183,
        genesis_date: 0,
    });
    let projected = calculator.projected_mass_after_semester(1_000_000 * MICRO);
    assert_eq!(projected, 1_048_800 * MICRO);
}

#[test]
fn days_until_reevaluation_counts_down() {
    let calculator = DUCalculator::new(DUConfig {
        growth_rate_per_semester: 48_800,
        semester_days: 183,
        genesis_date: 0,
    });
    let now = 1_700_000_000;
    assert_eq!(calculator.days_until_reevaluation(now - 100 * 86_400, now), 83);
    assert_eq!(calculator.days_until_reevaluation(now - 200 * 86_400, now), 0);
}
