use dht11::{checksum, classify_pulse, decode_frame, Dht11, DhtError, DhtReading, Phase, Step};

/// Samples for the handshake: response low, release high, data start low.
fn handshake() -> Vec<(bool, u64)> {
    vec![(true, 5), (false, 20), (false, 40), (true, 80), (true, 10), (false, 50)]
}

/// Samples for one bit: the sync pulse ends, then the high pulse lasts 28 us
/// for a `0` and 70 us for a `1`.
fn bit_samples(bit: bool) -> Vec<(bool, u64)> {
    let width = if bit { 70 } else { 28 };
    vec![(false, 10), (true, 50), (true, 20), (false, width)]
}

/// Samples for a whole read of `frame`, most significant bit first.
fn frame_samples(frame: [u8; 5]) -> Vec<(bool, u64)> {
    let mut v = handshake();
    for byte in frame.iter() {
        for k in 0..8 {
            v.extend(bit_samples((byte >> (7 - k)) & 1 == 1));
        }
    }
    v
}

/// Feeds samples to the engine until it reports the end of the read.
fn run(engine: &mut Dht11, samples: &[(bool, u64)]) -> Option<Result<DhtReading, DhtError>> {
    for &(high, elapsed) in samples {
        if let Step::Done(r) = engine.step(high, elapsed) {
            return Some(r);
        }
    }
    None
}

#[test]
fn pulse_of_48_us_is_zero() {
    assert_eq!(classify_pulse(48), Ok(false));
}

#[test]
fn pulse_of_49_us_is_one() {
    assert_eq!(classify_pulse(49), Ok(true));
}

#[test]
fn pulse_of_0_us_is_zero() {
    assert_eq!(classify_pulse(0), Ok(false));
}

#[test]
fn pulse_at_cap_is_timeout() {
    assert_eq!(classify_pulse(99), Ok(true));
    assert_eq!(classify_pulse(100), Err(DhtError::Timeout));
    assert_eq!(classify_pulse(u64::MAX), Err(DhtError::Timeout));
}

#[test]
fn checksum_sums_modulo_256() {
    assert_eq!(checksum(&[1, 2, 3, 4, 0]), 10);
    assert_eq!(checksum(&[255, 255, 255, 255, 0]), 252);
    assert_eq!(checksum(&[0, 0, 0, 0, 9]), 0);
}

#[test]
fn decode_valid_frame() {
    assert_eq!(
        decode_frame(&[55, 0, 23, 0, 78]),
        Ok(DhtReading { temperature: 23, humidity: 55 })
    );
}

#[test]
fn checksum_round_trip_and_bit_flips() {
    let cases: [[u8; 4]; 4] = [[0, 0, 0, 0], [55, 3, 23, 9], [255, 255, 255, 255], [200, 100, 50, 25]];
    for d in cases.iter() {
        let c = ((d[0] as u32 + d[1] as u32 + d[2] as u32 + d[3] as u32) % 256) as u8;
        assert_eq!(
            decode_frame(&[d[0], d[1], d[2], d[3], c]),
            Ok(DhtReading { temperature: d[2], humidity: d[0] })
        );
        for k in 0..8 {
            assert_eq!(
                decode_frame(&[d[0], d[1], d[2], d[3], c ^ (1u8 << k)]),
                Err(DhtError::ChecksumMismatch)
            );
        }
    }
}

#[test]
fn phase_bounds() {
    assert_eq!(Phase::ResponseLow.bound_us(), 60);
    assert_eq!(Phase::ResponseHigh.bound_us(), 100);
    assert_eq!(Phase::DataStart.bound_us(), 100);
    assert_eq!(Phase::BitSync.bound_us(), 80);
    assert_eq!(Phase::BitMeasure.bound_us(), 100);
    assert!(!Phase::ResponseLow.awaits_high());
    assert!(Phase::BitSync.awaits_high());
    assert_eq!(Phase::DataStart.next(), Phase::BitSync);
    assert_eq!(Phase::BitMeasure.next(), Phase::BitSync);
}

#[test]
fn full_happy_path() {
    let frame = [0x37, 0x00, 0x17, 0x00, 0x4e];
    let mut engine = Dht11::new();
    let r = run(&mut engine, &frame_samples(frame));
    assert_eq!(r, Some(Ok(DhtReading { temperature: 23, humidity: 55 })));
    assert_eq!(engine.frame(), frame);
    assert_eq!(engine.outcome(), Some(Ok(DhtReading { temperature: 23, humidity: 55 })));
}

#[test]
fn handshake_steps() {
    let mut engine = Dht11::new();
    assert!(matches!(engine.step(true, 5), Step::Poll));
    assert!(matches!(engine.step(false, 20), Step::NextPhase));
    assert_eq!(engine.phase(), Phase::ResponseHigh);
    assert!(matches!(engine.step(true, 80), Step::NextPhase));
    assert_eq!(engine.phase(), Phase::DataStart);
    assert!(matches!(engine.step(false, 50), Step::NextPhase));
    assert_eq!(engine.phase(), Phase::BitSync);
    assert!(matches!(engine.step(true, 50), Step::NextPhase));
    assert_eq!(engine.phase(), Phase::BitMeasure);
    assert!(matches!(engine.step(false, 70), Step::NextPhase));
    assert_eq!(engine.phase(), Phase::BitSync);
    assert_eq!(engine.frame(), [1, 0, 0, 0, 0]);
}

#[test]
fn timeout_awaiting_response_low() {
    let mut engine = Dht11::new();
    assert!(matches!(engine.step(true, 60), Step::Poll));
    assert!(matches!(engine.step(true, 61), Step::Done(Err(DhtError::Timeout))));
    assert_eq!(engine.phase(), Phase::ResponseLow);
}

#[test]
fn timeout_awaiting_response_high() {
    let mut engine = Dht11::new();
    run(&mut engine, &[(false, 20)]);
    assert!(matches!(engine.step(false, 100), Step::Poll));
    assert!(matches!(engine.step(false, 101), Step::Done(Err(DhtError::Timeout))));
    assert_eq!(engine.phase(), Phase::ResponseHigh);
}

#[test]
fn timeout_awaiting_data_start() {
    let mut engine = Dht11::new();
    run(&mut engine, &[(false, 20), (true, 80)]);
    assert!(matches!(engine.step(true, 100), Step::Poll));
    assert!(matches!(engine.step(true, 101), Step::Done(Err(DhtError::Timeout))));
    assert_eq!(engine.phase(), Phase::DataStart);
}

#[test]
fn timeout_in_bit_sync() {
    let mut engine = Dht11::new();
    run(&mut engine, &handshake());
    assert!(matches!(engine.step(false, 80), Step::Poll));
    assert!(matches!(engine.step(false, 81), Step::Done(Err(DhtError::Timeout))));
    assert_eq!(engine.phase(), Phase::BitSync);
}

#[test]
fn timeout_in_bit_pulse_while_high() {
    let mut engine = Dht11::new();
    run(&mut engine, &handshake());
    run(&mut engine, &[(true, 50)]);
    assert!(matches!(engine.step(true, 99), Step::Poll));
    assert!(matches!(engine.step(true, 100), Step::Done(Err(DhtError::Timeout))));
    assert_eq!(engine.phase(), Phase::BitMeasure);
}

#[test]
fn timeout_in_bit_pulse_at_cap() {
    let mut engine = Dht11::new();
    run(&mut engine, &handshake());
    run(&mut engine, &[(true, 50)]);
    assert!(matches!(engine.step(false, 100), Step::Done(Err(DhtError::Timeout))));
}

#[test]
fn timeout_in_last_bit_gives_no_reading() {
    let frame = [0x37, 0x00, 0x17, 0x00, 0x4e];
    let mut samples = frame_samples(frame);
    let last = samples.len() - 1;
    samples[last] = (true, 100);
    let mut engine = Dht11::new();
    assert_eq!(run(&mut engine, &samples), Some(Err(DhtError::Timeout)));
    assert_eq!(engine.outcome(), Some(Err(DhtError::Timeout)));
}

#[test]
fn checksum_mismatch_keeps_raw_frame() {
    let frame = [0x37, 0x00, 0x17, 0x00, 0x4f];
    let mut engine = Dht11::new();
    assert_eq!(run(&mut engine, &frame_samples(frame)), Some(Err(DhtError::ChecksumMismatch)));
    assert_eq!(engine.frame(), frame);
    assert_eq!(checksum(&engine.frame()), 0x4e);
}

#[test]
fn finished_read_stays_finished() {
    let mut engine = Dht11::new();
    run(&mut engine, &[(true, 61)]);
    assert!(matches!(engine.step(false, 10), Step::Done(Err(DhtError::Timeout))));
    assert_eq!(engine.outcome(), Some(Err(DhtError::Timeout)));
}

#[test]
fn repeated_reads_agree() {
    let frame = [40, 1, 21, 2, 64];
    let samples = frame_samples(frame);
    let mut engine = Dht11::new();
    let first = run(&mut engine, &samples);
    engine.start();
    assert_eq!(engine.outcome(), None);
    assert_eq!(engine.phase(), Phase::ResponseLow);
    assert_eq!(engine.frame(), [0; 5]);
    let second = run(&mut engine, &samples);
    assert_eq!(first, Some(Ok(DhtReading { temperature: 21, humidity: 40 })));
    assert_eq!(first, second);
}

#[test]
fn start_after_failure_clears_it() {
    let frame = [40, 1, 21, 2, 64];
    let mut engine = Dht11::new();
    run(&mut engine, &[(false, 20), (false, 101)]);
    engine.start();
    assert_eq!(
        run(&mut engine, &frame_samples(frame)),
        Some(Ok(DhtReading { temperature: 21, humidity: 40 }))
    );
}
