use quaver::compile::CompileError;
use quaver::unit::Unit;

use quaver::Engine;
use quaver::UNIT;

fn engine_with(code: &str) -> Engine {
    let mut e = Engine::new();
    e.code = code.as_bytes().to_vec();
    e
}

#[test]
fn chain_compilation_builds_two_nodes_one_edge() {
    let mut e = engine_with("a: sin(2)\nb: mul(3)&a");
    assert!(e.parse().is_ok());
    assert_eq!(e.graph.units.len(), 2);
    assert_eq!(e.graph.edges.len(), 1);
    assert_eq!(e.graph.edges[0], (0, 1));
    assert_eq!(e.graph.lookup(&b"b".to_vec()), Some(1));
    assert_eq!(e.graph.lookup(&b"a".to_vec()), Some(0));
    match &e.graph.units[0] {
        Unit::Sin(o) => assert_eq!(o.core.freq, 2 * UNIT),
        other => panic!("expected a sine node, got {:?}", other),
    }
    match &e.graph.units[1] {
        Unit::MulU(m) => assert_eq!(m.v, 3 * UNIT),
        other => panic!("expected a mul node, got {:?}", other),
    }
}

#[test]
fn sink_summation_mixes_constant_sinks() {
    let mut e = engine_with("~a: speed(1.0)\n~b: speed(0.5)");
    let out = e.gen_next_buf_64().expect("patch must compile");
    assert_eq!(out.len(), 64);
    for s in out {
        assert_eq!(s, 1_500_000);
    }
    assert_eq!(e.elapsed_samples, 64);
}

#[test]
fn sequencer_compile_two_compounds() {
    let mut e = engine_with("a: loop(60, 72)");
    assert!(e.parse().is_ok());
    assert_eq!(e.graph.units.len(), 1);
    match &e.graph.units[0] {
        Unit::Seqr(l) => {
            assert_eq!(l.events.len(), 2);
            let e0 = l.events[0];
            let e1 = l.events[1];
            assert_eq!((e0.tnum, e0.tden), (0, 2));
            assert_eq!((e1.tnum, e1.tden), (1, 2));
            assert_eq!(e0.semi, 0);
            assert_eq!(e0.ratio, 1_000_000);
            assert_eq!(e1.semi, 12);
            assert_eq!(e1.ratio, 2_000_000);
            assert_eq!(e0.tick, 0);
            // one bar at 120 BPM and 44100 Hz is 88200 samples
            assert_eq!(l.cycle, 88_200 * 1_000_000);
            assert_eq!(e1.tick, l.cycle / 2);
        },
        other => panic!("expected a sequencer node, got {:?}", other),
    }
}

#[test]
fn sequencer_compound_subdivision() {
    let mut e = engine_with("a: loop(60_62, 64)");
    assert!(e.parse().is_ok());
    match &e.graph.units[0] {
        Unit::Seqr(l) => {
            assert_eq!(l.events.len(), 3);
            // the first compound's two notes split its half of the cycle
            assert_eq!((l.events[0].tnum, l.events[0].tden), (0, 4));
            assert_eq!((l.events[1].tnum, l.events[1].tden), (1, 4));
            // the second compound's single note sits at the half cycle
            assert_eq!((l.events[2].tnum, l.events[2].tden), (1, 2));
            assert_eq!(l.events[1].semi, 2);
            assert_eq!(l.events[2].semi, 4);
        },
        other => panic!("expected a sequencer node, got {:?}", other),
    }
}

#[test]
fn sequencer_rests_keep_their_slot() {
    let mut e = engine_with("a: loop(60, x, 67)");
    assert!(e.parse().is_ok());
    match &e.graph.units[0] {
        Unit::Seqr(l) => {
            assert_eq!(l.events.len(), 2);
            assert_eq!((l.events[0].tnum, l.events[0].tden), (0, 3));
            assert_eq!((l.events[1].tnum, l.events[1].tden), (2, 3));
        },
        other => panic!("expected a sequencer node, got {:?}", other),
    }
}

#[test]
fn deferred_recompile_fires_one_small_frame_before_bar() {
    let mut e = engine_with("~a: speed(1.0)");
    assert!(e.parse().is_ok());
    // one small frame before the 88200-sample bar boundary
    e.elapsed_samples = 88_200 - 64;
    e.update = true;
    e.code = b"~b: speed(0.25)".to_vec();
    let out = e.gen_next_buf_128().expect("patch must compile");
    assert!(!e.update, "the pending update must be consumed");
    for s in out {
        assert_eq!(s, 250_000, "output must come from the recompiled patch");
    }
}

#[test]
fn deferred_recompile_waits_two_small_frames_before_bar() {
    let mut e = engine_with("~a: speed(1.0)");
    assert!(e.parse().is_ok());
    // two small frames before the bar boundary: no recompile yet
    e.elapsed_samples = 88_200 - 128;
    e.update = true;
    e.code = b"~b: speed(0.25)".to_vec();
    let out = e.gen_next_buf_128().expect("previous graph still runs");
    assert!(e.update, "the update must still be pending");
    for s in out {
        assert_eq!(s, 1_000_000, "output must come from the old graph");
    }
    assert_eq!(e.elapsed_samples, 88_200);
}

#[test]
fn unresolved_reference_fails_and_keeps_old_graph() {
    let mut e = engine_with("~a: speed(1.0)");
    assert!(e.parse().is_ok());
    assert_eq!(e.graph.units.len(), 1);
    e.code = b"b: mul(3)&zzz".to_vec();
    assert_eq!(e.parse(), Err(CompileError::UnresolvedRef));
    assert_eq!(e.graph.units.len(), 1, "the previous graph must stay");
    assert_eq!(e.graph.lookup(&b"~a".to_vec()), Some(0));
}

#[test]
fn parse_error_is_reported() {
    let mut e = engine_with("a: sin(");
    assert_eq!(e.parse(), Err(CompileError::ParseError));
}

#[test]
fn missing_envelope_parameter_is_reported() {
    let mut e = engine_with("a: env_perc(0.01)");
    assert_eq!(e.parse(), Err(CompileError::BadParam));
}

#[test]
fn unknown_sample_symbol_is_reported() {
    let mut e = engine_with("~s: sampler(\\kick)");
    assert_eq!(e.parse(), Err(CompileError::UnknownSample));
}

#[test]
fn sampler_streams_its_table() {
    let mut e = engine_with("~s: sampler(\\kick)");
    let table: Vec<i64> = vec![7_000, 8_000, 9_000];
    e.add_sample(b"kick".to_vec(), table);
    let out = e.gen_next_buf_64().expect("patch must compile");
    assert_eq!(out[0], 7_000);
    assert_eq!(out[1], 8_000);
    assert_eq!(out[2], 9_000);
    assert_eq!(out[3], 0, "past the table end the sampler reports silence");
}

#[test]
fn impulse_drives_percussive_envelope() {
    // attack and decay of one millisecond are 44 samples at 44100 Hz
    let mut e = engine_with("~e: imp(100)env_perc(0.001,0.001)");
    let out = e.gen_next_buf_64().expect("patch must compile");
    assert_eq!(out[0], 0, "the envelope starts its attack at the trigger");
    assert_eq!(out[1], 1_000_000 / 44);
    assert_eq!(out[2], 2 * 1_000_000 / 44);
}

#[test]
fn decimal_literals_become_fixed_point() {
    let mut e = engine_with("x: add(1.5)\ny: add(440)\nz: add(-0.25)");
    assert!(e.parse().is_ok());
    match (&e.graph.units[0], &e.graph.units[1], &e.graph.units[2]) {
        (Unit::AddU(a), Unit::AddU(b), Unit::AddU(c)) => {
            assert_eq!(a.v, 1_500_000);
            assert_eq!(b.v, 440_000_000);
            assert_eq!(c.v, -250_000);
        },
        other => panic!("expected three add nodes, got {:?}", other),
    }
}

#[test]
fn anonymous_lines_bind_the_sink_sentinel() {
    let mut e = engine_with("speed(0.5)");
    let out = e.gen_next_buf_64().expect("patch must compile");
    for s in out {
        assert_eq!(s, 500_000, "an anonymous line is itself a sink");
    }
}

#[test]
fn rebinding_shadows_but_keeps_old_node() {
    let mut e = engine_with("a: sin(2)\na: sin(3)");
    assert!(e.parse().is_ok());
    assert_eq!(e.graph.units.len(), 2, "rebinding does not remove nodes");
    assert_eq!(e.graph.lookup(&b"a".to_vec()), Some(1));
}

#[test]
fn sequencer_fires_its_event_once_per_cycle() {
    let mut e = engine_with("~l: loop(60)");
    let out = e.gen_next_buf_64().expect("patch must compile");
    assert_eq!(out[0], 1_000_000, "the single event fires at the cycle start");
    for i in 1..64 {
        assert_eq!(out[i], 0, "sample {}", i);
    }
}

#[test]
fn two_large_frames_advance_the_clock() {
    let mut e = engine_with("~a: speed(1.0)");
    assert!(e.parse().is_ok());
    e.gen_next_buf_128().unwrap();
    e.gen_next_buf_128().unwrap();
    assert_eq!(e.elapsed_samples, 256);
}
