//! The profile sample model and its reconstruction.

use libdatadog::profile_api::{
    function_fetch, location_fetch, mapping_fetch, string_table_fetch, Label, PprofFunction,
    PprofLabel, PprofLine, PprofLocation, PprofMapping, PprofProfile, PprofSample,
    PprofValueType, Profile, ProfileError, UpscalingError, UpscalingInfo,
};

#[test]
fn label_uses_at_most_one_of_str_and_num() {
    let label = Label {
        key: "name",
        str: Some("levi"),
        num: 0,
        num_unit: Some("name"), // can't use num_unit with str
    };
    assert!(!label.uses_at_most_one_of_str_and_num());

    let label = Label {
        key: "name",
        str: Some("levi"),
        num: 10, // can't use num with str
        num_unit: None,
    };
    assert!(!label.uses_at_most_one_of_str_and_num());

    let label = Label {
        key: "name",
        str: Some("levi"),
        num: 0,
        num_unit: None,
    };
    assert!(label.uses_at_most_one_of_str_and_num());

    let label = Label {
        key: "process_id",
        str: None,
        num: 0,
        num_unit: None,
    };
    assert!(label.uses_at_most_one_of_str_and_num());

    let label = Label {
        key: "local root span id",
        str: None,
        num: 10901,
        num_unit: None,
    };
    assert!(label.uses_at_most_one_of_str_and_num());

    let label = Label {
        key: "duration",
        str: None,
        num: 12345,
        num_unit: Some("nanoseconds"),
    };
    assert!(label.uses_at_most_one_of_str_and_num());
}

fn strings(xs: &[&str]) -> Vec<String> {
    xs.iter().map(|s| s.to_string()).collect()
}

fn small_pprof() -> PprofProfile {
    PprofProfile {
        string_table: strings(&["", "samples", "count", "main", "main.rs", "libapp", "b1d"]),
        mappings: vec![PprofMapping {
            id: 7,
            memory_start: 0x1000,
            memory_limit: 0x2000,
            file_offset: 0,
            filename: 5,
            build_id: 6,
        }],
        functions: vec![PprofFunction { id: 4, name: 3, system_name: 3, filename: 4, start_line: 10 }],
        locations: vec![PprofLocation {
            id: 9,
            mapping_id: 7,
            address: 0x1042,
            lines: vec![PprofLine { function_id: 4, line: 12 }],
            is_folded: false,
        }],
        sample_types: vec![PprofValueType { typ: 1, unit: 2 }],
        samples: vec![PprofSample {
            location_ids: vec![9],
            values: vec![3],
            labels: vec![PprofLabel { key: 1, str: 0, num: 5, num_unit: 2 }],
        }],
        period_type: Some(PprofValueType { typ: 1, unit: 2 }),
        period: 100,
        duration_nanos: 42_000,
        time_nanos: -5,
    }
}

#[test]
fn string_table_fetch_resolves_in_range_ids_only() {
    let p = small_pprof();
    assert_eq!(string_table_fetch(&p, 3).unwrap(), "main");
    assert_eq!(string_table_fetch(&p, -1).unwrap_err(), ProfileError::StringNotFound);
    assert_eq!(string_table_fetch(&p, 7).unwrap_err(), ProfileError::StringNotFound);
}

#[test]
fn mapping_fetch_finds_by_id_and_zero_is_empty() {
    let p = small_pprof();
    let m = mapping_fetch(&p, 7).unwrap();
    assert_eq!(m.filename, "libapp");
    assert_eq!(m.build_id, "b1d");
    assert_eq!(m.memory_start, 0x1000);

    let empty = mapping_fetch(&p, 0).unwrap();
    assert_eq!(empty.filename, "");
    assert_eq!(empty.memory_limit, 0);

    assert_eq!(mapping_fetch(&p, 99).unwrap_err(), ProfileError::MappingNotFound);
}

#[test]
fn function_and_location_fetch_resolve_transitively() {
    let p = small_pprof();
    let f = function_fetch(&p, 4).unwrap();
    assert_eq!(f.name, "main");
    assert_eq!(f.filename, "main.rs");
    assert_eq!(function_fetch(&p, 5).unwrap_err(), ProfileError::FunctionNotFound);

    let l = location_fetch(&p, 9).unwrap();
    assert_eq!(l.address, 0x1042);
    assert_eq!(l.mapping.filename, "libapp");
    assert_eq!(l.lines.len(), 1);
    assert_eq!(l.lines[0].function.name, "main");
    assert_eq!(l.lines[0].line, 12);
    assert_eq!(location_fetch(&p, 1).unwrap_err(), ProfileError::LocationNotFound);
}

#[test]
fn try_from_resolves_a_whole_profile() {
    let p = small_pprof();
    let profile = Profile::try_from(&p).unwrap();
    assert_eq!(profile.duration_nanos, 42_000);
    assert_eq!(profile.start_time_nanos, -5);
    let (period, vt) = profile.period.unwrap();
    assert_eq!(period, 100);
    assert_eq!(vt.typ, "samples");
    assert_eq!(vt.unit, "count");
    assert_eq!(profile.sample_types.len(), 1);
    assert_eq!(profile.samples.len(), 1);
    let s = &profile.samples[0];
    assert_eq!(s.values, vec![3]);
    assert_eq!(s.locations[0].mapping.build_id, "b1d");
    let lab = &s.labels[0];
    assert_eq!(lab.key, "samples");
    assert_eq!(lab.str, None);
    assert_eq!(lab.num, 5);
    assert_eq!(lab.num_unit, Some("count"));
}

#[test]
fn try_from_reports_the_first_bad_id() {
    let mut p = small_pprof();
    p.samples[0].labels[0].key = 40; // no such string
    assert_eq!(Profile::try_from(&p).unwrap_err(), ProfileError::StringNotFound);

    let mut p = small_pprof();
    p.locations[0].mapping_id = 3; // no such mapping
    assert_eq!(Profile::try_from(&p).unwrap_err(), ProfileError::MappingNotFound);
}

#[test]
fn upscaling_validity() {
    let poisson = UpscalingInfo::Poisson {
        sum_value_offset: 1,
        count_value_offset: 0,
        sampling_distance: 10,
    };
    assert!(poisson.check_validity(2).is_ok());
    assert_eq!(
        poisson.check_validity(1).unwrap_err(),
        UpscalingError::OffsetOutOfRange
    );

    let zero_distance = UpscalingInfo::Poisson {
        sum_value_offset: 0,
        count_value_offset: 0,
        sampling_distance: 0,
    };
    assert_eq!(
        zero_distance.check_validity(4).unwrap_err(),
        UpscalingError::ZeroSamplingDistance
    );

    let proportional = UpscalingInfo::Proportional { scale_bits: 0x3ff0000000000000 };
    assert!(proportional.check_validity(0).is_ok());
}
