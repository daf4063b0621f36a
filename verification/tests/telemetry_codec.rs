use ground_station::telemetry::{
    Decimal, GpsTime, HsDeployed, MastRaised, MissionTime, Mode, ParseError, PcDeployed, State,
    Telemetry,
};

fn example_line() -> Vec<u8> {
    b"1047,12:34:56.78,42,Flight,Ascent,123.5,Deployed,NotDeployed,Raised,21.5,5.1,101.325,12:34:55,1723.5,37.2,-90.5,12,-4.5,3.0,CXON"
        .to_vec()
}

fn example_record() -> Telemetry {
    Telemetry {
        team_id: 1047,
        mission_time: MissionTime { h: 12, m: 34, s: 56, cs: 78 },
        packet_count: 42,
        mode: Mode::Flight,
        state: State::Ascent,
        altitude: Decimal { neg: false, int_part: 123, frac: vec![5] },
        hs_deployed: HsDeployed::Deployed,
        pc_deployed: PcDeployed::NotDeployed,
        mast_raised: MastRaised::Raised,
        temperature: Decimal { neg: false, int_part: 21, frac: vec![5] },
        voltage: Decimal { neg: false, int_part: 5, frac: vec![1] },
        pressure: Decimal { neg: false, int_part: 101, frac: vec![3, 2, 5] },
        gps_time: GpsTime { h: 12, m: 34, s: 55 },
        gps_altitude: Decimal { neg: false, int_part: 1723, frac: vec![5] },
        gps_latitude: Decimal { neg: false, int_part: 37, frac: vec![2] },
        gps_longitude: Decimal { neg: true, int_part: 90, frac: vec![5] },
        gps_sats: 12,
        tilt_x: Decimal { neg: true, int_part: 4, frac: vec![5] },
        tilt_y: Decimal { neg: false, int_part: 3, frac: vec![0] },
        cmd_echo: b"CXON".to_vec(),
    }
}

fn decimals_equal(a: &Decimal, b: &Decimal) -> bool {
    a.neg == b.neg && a.int_part == b.int_part && a.frac == b.frac
}

#[test]
fn parse_example_line_gives_each_field() {
    let t = Telemetry::parse(&example_line()).unwrap();
    let want = example_record();
    assert_eq!(t.team_id, want.team_id);
    assert_eq!(t.mission_time, want.mission_time);
    assert_eq!(t.packet_count, want.packet_count);
    assert_eq!(t.mode, want.mode);
    assert_eq!(t.state, want.state);
    assert!(decimals_equal(&t.altitude, &want.altitude));
    assert_eq!(t.hs_deployed, want.hs_deployed);
    assert_eq!(t.pc_deployed, want.pc_deployed);
    assert_eq!(t.mast_raised, want.mast_raised);
    assert!(decimals_equal(&t.temperature, &want.temperature));
    assert!(decimals_equal(&t.voltage, &want.voltage));
    assert!(decimals_equal(&t.pressure, &want.pressure));
    assert_eq!(t.gps_time, want.gps_time);
    assert!(decimals_equal(&t.gps_altitude, &want.gps_altitude));
    assert!(decimals_equal(&t.gps_latitude, &want.gps_latitude));
    assert!(decimals_equal(&t.gps_longitude, &want.gps_longitude));
    assert_eq!(t.gps_sats, want.gps_sats);
    assert!(decimals_equal(&t.tilt_x, &want.tilt_x));
    assert!(decimals_equal(&t.tilt_y, &want.tilt_y));
    assert_eq!(t.cmd_echo, want.cmd_echo);
}

#[test]
fn format_writes_the_exact_line() {
    assert_eq!(example_record().format(), example_line());
}

#[test]
fn parse_after_format_is_identity() {
    let r = example_record();
    let again = Telemetry::parse(&r.format()).unwrap();
    assert_eq!(again.format(), example_line());
}

#[test]
fn whole_number_fields_round_trip() {
    let mut r = example_record();
    r.altitude = Decimal { neg: false, int_part: 1600, frac: vec![] };
    r.tilt_x = Decimal { neg: true, int_part: 0, frac: vec![0, 1] };
    let line = r.format();
    let t = Telemetry::parse(&line).unwrap();
    assert!(decimals_equal(&t.altitude, &r.altitude));
    assert!(decimals_equal(&t.tilt_x, &r.tilt_x));
}

#[test]
fn missing_field_is_count_mismatch() {
    // drop the trailing command echo field entirely
    let line = b"1047,12:34:56.78,42,Flight,Ascent,123.5,Deployed,NotDeployed,Raised,21.5,5.1,101.325,12:34:55,1723.5,37.2,-90.5,12,-4.5,3.0";
    assert!(matches!(Telemetry::parse(line), Err(ParseError::FieldCountMismatch)));
}

#[test]
fn extra_field_is_count_mismatch() {
    let mut line = example_line();
    line.extend_from_slice(b",extra");
    assert!(matches!(Telemetry::parse(&line), Err(ParseError::FieldCountMismatch)));
}

#[test]
fn bad_team_id_is_field_zero() {
    let line = b"xyz,12:34:56.78,42,Flight,Ascent,123.5,Deployed,NotDeployed,Raised,21.5,5.1,101.325,12:34:55,1723.5,37.2,-90.5,12,-4.5,3.0,CXON";
    assert!(matches!(Telemetry::parse(line), Err(ParseError::FieldFormatError { index: 0 })));
}

#[test]
fn team_id_above_u16_fails() {
    let line = b"70000,12:34:56.78,42,Flight,Ascent,123.5,Deployed,NotDeployed,Raised,21.5,5.1,101.325,12:34:55,1723.5,37.2,-90.5,12,-4.5,3.0,CXON";
    assert!(matches!(Telemetry::parse(line), Err(ParseError::FieldFormatError { index: 0 })));
}

#[test]
fn unpadded_time_fails() {
    let line = b"1047,1:34:56.78,42,Flight,Ascent,123.5,Deployed,NotDeployed,Raised,21.5,5.1,101.325,12:34:55,1723.5,37.2,-90.5,12,-4.5,3.0,CXON";
    assert!(matches!(Telemetry::parse(line), Err(ParseError::FieldFormatError { index: 1 })));
}

#[test]
fn enum_tokens_are_case_sensitive() {
    let line = b"1047,12:34:56.78,42,flight,Ascent,123.5,Deployed,NotDeployed,Raised,21.5,5.1,101.325,12:34:55,1723.5,37.2,-90.5,12,-4.5,3.0,CXON";
    assert!(matches!(Telemetry::parse(line), Err(ParseError::FieldFormatError { index: 3 })));
}

#[test]
fn unknown_state_token_fails() {
    let line = b"1047,12:34:56.78,42,Flight,Orbit,123.5,Deployed,NotDeployed,Raised,21.5,5.1,101.325,12:34:55,1723.5,37.2,-90.5,12,-4.5,3.0,CXON";
    assert!(matches!(Telemetry::parse(line), Err(ParseError::FieldFormatError { index: 4 })));
}

#[test]
fn decimal_must_have_digits_after_point() {
    let line = b"1047,12:34:56.78,42,Flight,Ascent,123.,Deployed,NotDeployed,Raised,21.5,5.1,101.325,12:34:55,1723.5,37.2,-90.5,12,-4.5,3.0,CXON";
    assert!(matches!(Telemetry::parse(line), Err(ParseError::FieldFormatError { index: 5 })));
}

#[test]
fn bare_minus_is_not_a_decimal() {
    let line = b"1047,12:34:56.78,42,Flight,Ascent,-,Deployed,NotDeployed,Raised,21.5,5.1,101.325,12:34:55,1723.5,37.2,-90.5,12,-4.5,3.0,CXON";
    assert!(matches!(Telemetry::parse(line), Err(ParseError::FieldFormatError { index: 5 })));
}

#[test]
fn gps_satellite_count_fits_a_byte() {
    let line = b"1047,12:34:56.78,42,Flight,Ascent,123.5,Deployed,NotDeployed,Raised,21.5,5.1,101.325,12:34:55,1723.5,37.2,-90.5,300,-4.5,3.0,CXON";
    assert!(matches!(Telemetry::parse(line), Err(ParseError::FieldFormatError { index: 16 })));
}

#[test]
fn empty_line_has_one_empty_field() {
    assert!(matches!(Telemetry::parse(b""), Err(ParseError::FieldCountMismatch)));
}

#[test]
fn mission_time_total_centiseconds() {
    let t = MissionTime { h: 1, m: 2, s: 3, cs: 4 };
    assert_eq!(t.total_centis(), 360000 + 12000 + 300 + 4);
}
