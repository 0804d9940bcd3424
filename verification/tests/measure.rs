use paytp_merchant::measure::{
    channel_crossover_rail_ops, report, two_leg_floor_units, SampleSizes, Source, NO_CROSSOVER,
};

const SIZES: SampleSizes = SampleSizes {
    slice: 36,
    checkpoint: 400,
    attestation: 134,
};

#[test]
fn report_has_all_required_rows_and_is_honest() {
    let rows = report(&SIZES);
    for r in &rows {
        match r.source {
            Source::Measured => assert!(r.value.is_some(), "{} must be measured", r.name),
            Source::PendingRealRail => {
                assert!(r.value.is_none(), "{} must not fake a value", r.name)
            }
        }
    }
    assert!(rows.iter().any(|r| r.name.contains("latency")));
    assert!(rows.iter().any(|r| r.name.contains("gas")));
    let slice = rows.iter().find(|r| r.name == "metering slice").unwrap();
    assert_eq!(slice.value, Some(SIZES.slice));
    assert_eq!(rows.len(), 19);
    assert_eq!(rows[1].value, Some(SIZES.checkpoint));
    assert_eq!(rows[2].value, Some(SIZES.attestation));
    assert_eq!(rows[14].value, Some(100));
    assert_eq!(rows[15].value, Some(67));
}

#[test]
fn two_leg_floors() {
    assert_eq!(two_leg_floor_units(100), 100);
    assert_eq!(two_leg_floor_units(150), 67);
    assert_eq!(two_leg_floor_units(1), 10_000);
    assert_eq!(two_leg_floor_units(10_001), 1);
}

#[test]
fn channel_beats_one_shots_quickly() {
    assert_eq!(channel_crossover_rail_ops(3, 1, 2), 2);
}

#[test]
fn a_crossover_is_the_smallest_number_of_payments() {
    assert_eq!(channel_crossover_rail_ops(1, 0, 7), 2);
    assert_eq!(channel_crossover_rail_ops(1, 1, 999_998), 1_000_000);
    assert_eq!(channel_crossover_rail_ops(1, 1, 999_999), 1_000_001);
    assert_eq!(channel_crossover_rail_ops(1, 1_000_000, 1), 1_000_002);
    assert_eq!(channel_crossover_rail_ops(u64::MAX, u64::MAX, 1), 2);
    assert_eq!(channel_crossover_rail_ops(u64::MAX, u64::MAX - 1, u64::MAX), u64::MAX);
}

#[test]
fn without_a_crossover_a_fixed_number_stands_for_it() {
    assert_eq!(channel_crossover_rail_ops(0, 1, 2), NO_CROSSOVER);
    assert_eq!(channel_crossover_rail_ops(1, u64::MAX, u64::MAX), NO_CROSSOVER);
    assert_eq!(NO_CROSSOVER, 1_000_001);
}
