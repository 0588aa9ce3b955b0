use quaver::unit::{Message, SquOsc, TriOsc, Unit};

fn zero_frame() -> Vec<i64> {
    vec![0i64; 64]
}

#[test]
fn free_running_square_phase_and_shape() {
    // 441 Hz at 44100 Hz: a 100-sample period, positive half first
    let osc = SquOsc::new().freq(441_000_000);
    let mut u = Unit::Squ(osc);
    let ins: Vec<Vec<i64>> = Vec::new();
    let mut out = zero_frame();
    u.process(&ins, &mut out);
    for i in 0..64 {
        // phase at sample i is i * 441e6 ticks of a 44100e6-tick cycle:
        // +1 while phase is at most half a cycle
        let expect = if 2 * (i as i64) * 441_000_000 <= 44_100_000_000 {
            1_000_000
        } else {
            -1_000_000
        };
        assert_eq!(out[i], expect, "sample {}", i);
    }
    match u {
        Unit::Squ(o) => assert_eq!(o.core.phase, 64 * 441_000_000),
        _ => unreachable!(),
    }
}

#[test]
fn free_running_triangle_matches_formula() {
    let osc = TriOsc::new().freq(441_000_000);
    let mut u = Unit::Tri(osc);
    let ins: Vec<Vec<i64>> = Vec::new();
    let mut out = zero_frame();
    u.process(&ins, &mut out);
    let cycle: i64 = 44_100_000_000;
    for i in 0..64 {
        let phase: i64 = i as i64 * 441_000_000;
        let expect = 2 * (2 * phase - cycle).abs() * 1_000_000 / cycle - 1_000_000;
        assert_eq!(out[i], expect, "sample {}", i);
    }
}

#[test]
fn sample_and_hold_keeps_increment_on_zero() {
    let osc = SquOsc::new();
    let mut u = Unit::Squ(osc);
    // zero samples hold, non-zero samples replace
    let mut modbuf = vec![0i64; 64];
    modbuf[0] = 300;
    modbuf[3] = 500;
    let ins: Vec<Vec<i64>> = vec![modbuf];
    let mut out = zero_frame();
    u.process(&ins, &mut out);
    match u {
        Unit::Squ(o) => {
            assert_eq!(o.core.inc, 500, "the held value is the last non-zero sample");
            // three samples at 300 ticks, then 61 samples at 500 ticks
            assert_eq!(o.core.phase, 3 * 300 + 61 * 500);
        },
        _ => unreachable!(),
    }
}

#[test]
fn unsupported_arity_writes_nothing() {
    let osc = SquOsc::new().freq(441_000_000);
    let mut u = Unit::Squ(osc);
    let ins: Vec<Vec<i64>> = vec![vec![0i64; 64], vec![0i64; 64]];
    let mut out = vec![123i64; 64];
    u.process(&ins, &mut out);
    for s in out {
        assert_eq!(s, 123, "two inputs are a documented no-op");
    }
    match u {
        Unit::Squ(o) => assert_eq!(o.core.phase, 0, "the state is untouched too"),
        _ => unreachable!(),
    }
}

#[test]
fn parameter_update_sets_base_frequency() {
    let osc = SquOsc::new();
    let mut u = Unit::Squ(osc);
    u.send_msg(Message::SetToNumber(0, 441_000_000));
    match &u {
        Unit::Squ(o) => assert_eq!(o.core.freq, 441_000_000),
        _ => unreachable!(),
    }
    // unrecognized indices are ignored
    u.send_msg(Message::SetToNumber(7, 1));
    match &u {
        Unit::Squ(o) => assert_eq!(o.core.freq, 441_000_000),
        _ => unreachable!(),
    }
}

#[test]
fn sine_peaks_at_quarter_cycle() {
    let osc = quaver::unit::SinOsc::new().freq(441_000_000).phase(44_100_000_000 / 4);
    let mut u = Unit::Sin(osc);
    let ins: Vec<Vec<i64>> = Vec::new();
    let mut out = zero_frame();
    u.process(&ins, &mut out);
    assert_eq!(out[0], 1_000_000, "the parabolic sine peaks at a quarter cycle");
}

#[test]
fn phase_wraps_by_subtraction_and_tracks_modulo() {
    // 30 kHz at 44100 Hz wraps many times within one frame; the phase after
    // k samples stays congruent to k*freq modulo one cycle
    let osc = SquOsc::new().freq(30_000_000_000);
    let mut u = Unit::Squ(osc);
    let ins: Vec<Vec<i64>> = Vec::new();
    let mut out = zero_frame();
    u.process(&ins, &mut out);
    match u {
        Unit::Squ(o) => {
            // 64 * 30e9 mod 44.1e9 ticks
            assert_eq!(o.core.phase, 23_700_000_000);
        },
        _ => unreachable!(),
    }
}

#[test]
fn saturating_fixed_point_helpers() {
    assert_eq!(quaver::fx::sat_add(i64::MAX, 1), i64::MAX);
    assert_eq!(quaver::fx::sat_add(i64::MIN, -1), i64::MIN);
    assert_eq!(quaver::fx::sat_add(2, 3), 5);
    assert_eq!(quaver::fx::mul_scaled(2_000_000, 1_500_000), 3_000_000);
    assert_eq!(quaver::fx::mul_scaled(-2_000_000, 1_500_000), -3_000_000);
}

#[test]
fn decimal_parser_reads_fixed_point() {
    assert_eq!(quaver::fx::parse_fixed(&b"1.5".to_vec()), Some(1_500_000));
    assert_eq!(quaver::fx::parse_fixed(&b"440".to_vec()), Some(440_000_000));
    assert_eq!(quaver::fx::parse_fixed(&b"-0.25".to_vec()), Some(-250_000));
    assert_eq!(quaver::fx::parse_fixed(&b"abc".to_vec()), None);
    assert_eq!(quaver::fx::parse_fixed(&b"".to_vec()), None);
    assert_eq!(quaver::fx::parse_fixed(&b"1.2.3".to_vec()), None);
}
