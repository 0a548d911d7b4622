use speedtest_core::csv::{write_csv_header, write_csv_row};
use speedtest_core::decimal::{decimal_text, format_fixed};
use speedtest_core::latency::{LatencyProbe, LatencyStats, ProbeError};
use speedtest_core::protocol::{
    server_start, server_step, ServerAction, ServerEvent, ServerState, TestKind,
};
use speedtest_core::report::{
    fraction_millis, latency_report, mbps, millis, samples_report, seconds,
};
use speedtest_core::stats::{compute_stats, Fraction};

fn frac(num: u128, den: u64) -> Fraction {
    Fraction { num, den }
}
use speedtest_core::throughput::{millis_between, ThroughputMeter, ThroughputSample};

#[test]
fn decimal_text_of_integers() {
    assert_eq!(decimal_text(0), "0");
    assert_eq!(decimal_text(7), "7");
    assert_eq!(decimal_text(5001), "5001");
    assert_eq!(decimal_text(u128::MAX), u128::MAX.to_string());
}

#[test]
fn fixed_point_rounding() {
    assert_eq!(format_fixed(1_234_567, 1_000_000, 2), "1.23");
    assert_eq!(format_fixed(1_235_001, 1_000_000, 2), "1.24");
    assert_eq!(format_fixed(6, 1000, 2), "0.01");
    assert_eq!(format_fixed(5, 1000, 2), "0.00");
    assert_eq!(format_fixed(4, 1000, 2), "0.00");
    assert_eq!(format_fixed(0, 3, 2), "0.00");
    assert_eq!(format_fixed(1, 3, 4), "0.3333");
    assert_eq!(format_fixed(2, 3, 4), "0.6667");
    // exact ties go to the even neighbour
    assert_eq!(format_fixed(125, 100, 1), "1.2");
    assert_eq!(format_fixed(135, 100, 1), "1.4");
    assert_eq!(format_fixed(5, 10, 0), "0");
    assert_eq!(format_fixed(15, 10, 0), "2");
    assert_eq!(format_fixed(25, 10, 0), "2");
    assert_eq!(format_fixed(12_345, 1, 0), "12345");
    assert_eq!(format_fixed(7, 1, 3), "7.000");
}

#[test]
fn report_units() {
    assert_eq!(millis(1_500_000), "1.50");
    assert_eq!(millis(0), "0.00");
    assert_eq!(millis(123_456_789), "123.46");
    assert_eq!(seconds(1_049_999_999), "1.0");
    // an exact tie is rounded on the exact value, to the even digit
    assert_eq!(seconds(1_050_000_000), "1.0");
    assert_eq!(seconds(1_150_000_000), "1.2");
    assert_eq!(seconds(10_000_000_000), "10.0");
    // 1 MB in one second is 8 Mbit/s
    assert_eq!(mbps(1_000_000, 1_000_000_000), "8.00");
    assert_eq!(mbps(125_000, 1_000_000_000), "1.00");
    assert_eq!(mbps(0, 1_000), "0.00");
    assert_eq!(mbps(0, 0), "NaN");
    assert_eq!(mbps(10, 0), "inf");
    assert_eq!(fraction_millis(frac(4_734_000, 3)), "1.58");
    assert_eq!(fraction_millis(frac(0, 1)), "0.00");
    assert_eq!(fraction_millis(frac(0, 0)), "NaN");
    assert_eq!(fraction_millis(frac(1, 0)), "inf");
    // a sum of u64 samples far beyond u64
    assert_eq!(fraction_millis(frac(u128::MAX, u64::MAX)), (u128::MAX / u64::MAX as u128 / 1_000_000).to_string() + ".55");
}

#[test]
fn stats_of_no_samples() {
    assert_eq!(compute_stats(&[]), (frac(0, 1), 0, 0, frac(0, 1)));
}

#[test]
fn stats_of_one_sample() {
    assert_eq!(compute_stats(&[5]), (frac(5, 1), 5, 5, frac(0, 1)));
}

#[test]
fn stats_of_several_samples() {
    // mean 6/3, min 1, max 3, jitter (|1-3| + |2-1|) / 2
    assert_eq!(compute_stats(&[3, 1, 2]), (frac(6, 3), 1, 3, frac(3, 2)));
    // the mean keeps its fraction: 11/4, jitter (10 + 10 + 1) / 3
    assert_eq!(compute_stats(&[0, 10, 0, 1]), (frac(11, 4), 0, 10, frac(21, 3)));
    assert_eq!(compute_stats(&[4, 4, 4]), (frac(12, 3), 4, 4, frac(0, 2)));
    let m = u64::MAX;
    assert_eq!(compute_stats(&[m, m]), (frac(2 * m as u128, 2), m, m, frac(0, 1)));
    assert_eq!(compute_stats(&[0, m]), (frac(m as u128, 2), 0, m, frac(m as u128, 1)));
}

#[test]
fn stats_bounds_hold_on_a_sample() {
    let s = [17, 3, 99, 42, 42, 8];
    let (avg, lo, hi, jit) = compute_stats(&s);
    assert!(lo as u128 * avg.den as u128 <= avg.num);
    assert!(avg.num <= hi as u128 * avg.den as u128);
    assert!(jit.num <= (hi - lo) as u128 * jit.den as u128);
    assert!(s.contains(&lo) && s.contains(&hi));
}

#[test]
fn stats_do_not_depend_on_order() {
    let s = [17, 3, 99, 42, 42, 8];
    let r = [8, 42, 42, 99, 3, 17];
    assert_eq!(compute_stats(&s), compute_stats(&r));
    let p = [42, 8, 99, 3, 17, 42];
    let (a, b) = (compute_stats(&s), compute_stats(&p));
    assert_eq!((a.0, a.1, a.2), (b.0, b.1, b.2));
}

#[test]
fn stats_shift_with_the_samples() {
    let s = [17, 3, 99, 42, 42, 8];
    let t: Vec<u64> = s.iter().map(|x| x + 1000).collect();
    let (a, b) = (compute_stats(&s), compute_stats(&t));
    assert_eq!(b.1, a.1 + 1000);
    assert_eq!(b.2, a.2 + 1000);
    assert_eq!(b.3, a.3);
    assert_eq!(b.0, frac(a.0.num + 6 * 1000, 6));
}

#[test]
fn latency_stats_from_samples() {
    let st = LatencyStats::from_samples(vec![2_000_000, 1_000_000, 3_000_000]);
    assert_eq!(st.avg_ns, frac(6_000_000, 3));
    assert_eq!(st.min_ns, 1_000_000);
    assert_eq!(st.max_ns, 3_000_000);
    assert_eq!(st.jitter_ns, frac(3_000_000, 2));
    assert_eq!(st.samples_ns, vec![2_000_000, 1_000_000, 3_000_000]);
}

#[test]
fn probe_payload_carries_round_tag() {
    let p = LatencyProbe::new(3, 4, 0);
    assert_eq!(p.payload_len(), 8);
    assert_eq!(p.payload(), vec![0u8; 8]);
    let p = LatencyProbe::new(3, 12, 0);
    assert_eq!(p.payload(), vec![0u8; 12]);
}

#[test]
fn probe_run_skips_warmup_rounds() {
    let mut p = LatencyProbe::new(2, 16, 1);
    let mut t = 100;
    while !p.is_finished() {
        let payload = p.payload();
        assert_eq!(payload.len(), 16);
        assert_eq!(&payload[..8], &(p.round() as u64).to_le_bytes());
        assert!(payload[8..].iter().all(|b| *b == 0));
        assert_eq!(p.on_echo(&payload, t), Ok(()));
        t += 100;
    }
    assert_eq!(p.round(), 3);
    let st = p.finish();
    // the warm-up round (100) is not recorded
    assert_eq!(st.samples_ns, vec![200, 300]);
    assert_eq!(st.avg_ns, frac(500, 2));
}

#[test]
fn probe_detects_echo_of_other_round() {
    let mut p = LatencyProbe::new(2, 8, 0);
    let first = p.payload();
    assert_eq!(p.on_echo(&first, 10), Ok(()));
    // a stale echo of round 0 does not pass as round 1
    assert_eq!(p.on_echo(&first, 20), Err(ProbeError::EchoMismatch));
    assert_eq!(p.round(), 1);
    assert!(!p.echo_matches(&first));
    let second = p.payload();
    assert!(p.echo_matches(&second));
    let mut longer = second.clone();
    longer.extend_from_slice(&[9, 9, 9]);
    assert!(p.echo_matches(&longer));
    assert_eq!(p.on_echo(&longer, 30), Ok(()));
    assert!(p.is_finished());
    assert_eq!(p.finish().samples_ns, vec![10, 30]);
}

#[test]
fn probe_without_rounds_is_finished() {
    let p = LatencyProbe::new(0, 32, 0);
    assert!(p.is_finished());
    let st = p.finish();
    assert_eq!((st.avg_ns, st.min_ns, st.max_ns, st.jitter_ns), (frac(0, 1), 0, 0, frac(0, 1)));
}

#[test]
fn meter_samples_after_each_interval() {
    let sec = 1_000_000_000;
    let mut m = ThroughputMeter::new(10 * sec, sec);
    assert!(m.is_running(0));
    assert!(m.is_running(10 * sec - 1));
    assert!(!m.is_running(10 * sec));
    m.record(100, sec / 2);
    m.record(100, sec + sec / 2);
    m.record(100, sec + sec / 2 + 1);
    // the next sample is due after two intervals, even though the clock
    // jumped far past it
    m.record(100, 5 * sec);
    m.record(100, 5 * sec + 1);
    assert_eq!(m.total_bytes(), 500);
    let v = m.finish(6 * sec);
    let pairs: Vec<(u64, u64)> = v.iter().map(|s| (s.elapsed_ns, s.total_bytes)).collect();
    assert_eq!(pairs, vec![(sec + sec / 2, 200), (5 * sec, 400), (5 * sec + 1, 500), (6 * sec, 500)]);
}

#[test]
fn meter_with_no_transfer() {
    let m = ThroughputMeter::new(0, 1);
    assert!(!m.is_running(0));
    let v = m.finish(7);
    assert_eq!(v.len(), 1);
    assert_eq!((v[0].elapsed_ns, v[0].total_bytes), (7, 0));
}

#[test]
fn progress_millis() {
    assert_eq!(millis_between(0, 1_999_999), 1);
    assert_eq!(millis_between(500_000, 1_500_000), 1);
    assert_eq!(millis_between(3, 3), 0);
    assert_eq!(millis_between(0, 10_000_000_000), 10_000);
}

#[test]
fn selectors_round_trip() {
    for k in [TestKind::Ping, TestKind::Download, TestKind::Upload] {
        assert_eq!(TestKind::from_selector(k.selector()), Some(k));
    }
    assert_eq!(TestKind::Ping.selector(), 0);
    assert_eq!(TestKind::Download.selector(), 1);
    assert_eq!(TestKind::Upload.selector(), 2);
    assert_eq!(TestKind::from_selector(3), None);
    assert_eq!(TestKind::from_selector(255), None);
}

#[test]
fn server_echo_session() {
    let (s, a) = server_start();
    assert_eq!((s, a), (ServerState::AwaitSelector, ServerAction::ReadSelector));
    let (s, a) = server_step(s, ServerEvent::Selector(0));
    assert_eq!((s, a), (ServerState::Echo, ServerAction::ReadChunk));
    let (s, a) = server_step(s, ServerEvent::Read(32));
    assert_eq!((s, a), (ServerState::Echo, ServerAction::WriteBack(32)));
    let (s, a) = server_step(s, ServerEvent::Written);
    assert_eq!((s, a), (ServerState::Echo, ServerAction::ReadChunk));
    let (s, a) = server_step(s, ServerEvent::Read(0));
    assert_eq!((s, a), (ServerState::Closed, ServerAction::Finish));
    assert_eq!(server_step(s, ServerEvent::Written), (ServerState::Closed, ServerAction::Finish));
}

#[test]
fn server_failures() {
    assert_eq!(
        server_step(ServerState::Echo, ServerEvent::Failed),
        (ServerState::Closed, ServerAction::Fail)
    );
    assert_eq!(
        server_step(ServerState::AwaitSelector, ServerEvent::Failed),
        (ServerState::Closed, ServerAction::Fail)
    );
    assert_eq!(
        server_step(ServerState::Stream, ServerEvent::Failed),
        (ServerState::Closed, ServerAction::Finish)
    );
    assert_eq!(
        server_step(ServerState::Drain, ServerEvent::Failed),
        (ServerState::Closed, ServerAction::Finish)
    );
}

#[test]
fn server_bulk_sessions() {
    let (s, a) = server_step(ServerState::AwaitSelector, ServerEvent::Selector(1));
    assert_eq!((s, a), (ServerState::Stream, ServerAction::WriteBlock));
    assert_eq!(server_step(s, ServerEvent::Written), (ServerState::Stream, ServerAction::WriteBlock));
    let (s, a) = server_step(ServerState::AwaitSelector, ServerEvent::Selector(2));
    assert_eq!((s, a), (ServerState::Drain, ServerAction::ReadBlock));
    assert_eq!(server_step(s, ServerEvent::Read(65536)), (ServerState::Drain, ServerAction::ReadBlock));
    assert_eq!(
        server_step(ServerState::AwaitSelector, ServerEvent::Selector(7)),
        (ServerState::Closed, ServerAction::Finish)
    );
}

#[test]
fn csv_lines() {
    let mut s = String::new();
    write_csv_header(&mut s, &["host", "port"]);
    assert_eq!(s, "host,port\n");
    write_csv_row(&mut s, &["a".to_string(), "b".to_string(), "c".to_string()]);
    assert_eq!(s, "host,port\na,b,c\n");
    write_csv_row(&mut s, &[]);
    assert_eq!(s, "host,port\na,b,c\n\n");
    let mut t = String::from("x");
    write_csv_header(&mut t, &["only"]);
    assert_eq!(t, "xonly\n");
}

#[test]
fn latency_report_text() {
    let st = LatencyStats::from_samples(vec![1_234_000, 2_000_000, 1_500_000]);
    let text = latency_report("127.0.0.1", 5001, &st);
    assert_eq!(
        text,
        "host,port,avg_ms,min_ms,max_ms,jitter_ms\n127.0.0.1,5001,1.58,1.23,2.00,0.63\n"
    );
}

#[test]
fn latency_report_keeps_the_fraction_of_the_mean() {
    // the exact mean is 1_005_000 1/3 ns: 1.0050003 ms shows as 1.01, where
    // a mean rounded to whole nanoseconds would sit on the tie 1.005
    let st = LatencyStats::from_samples(vec![1_004_999, 1_005_000, 1_005_002]);
    let text = latency_report("h", 1, &st);
    assert_eq!(text, "host,port,avg_ms,min_ms,max_ms,jitter_ms\nh,1,1.01,1.00,1.01,0.00\n");
}

#[test]
fn header_line_splits_back_into_names() {
    let names = ["seconds_elapsed", "mbps", "x"];
    let mut s = String::new();
    write_csv_header(&mut s, &names);
    assert!(s.ends_with('\n'));
    let line = &s[..s.len() - 1];
    assert!(!line.contains('\n'));
    assert_eq!(line.split(',').collect::<Vec<&str>>(), names);
}

#[test]
fn samples_report_text() {
    let samples = vec![
        ThroughputSample { elapsed_ns: 1_000_000_000, total_bytes: 1_250_000 },
        ThroughputSample { elapsed_ns: 2_050_000_000, total_bytes: 2_500_000 },
    ];
    assert_eq!(
        samples_report(&samples),
        "seconds_elapsed,mbps\n1.0,10.00\n2.0,9.76\n"
    );
    assert_eq!(samples_report(&[]), "seconds_elapsed,mbps\n");
}
