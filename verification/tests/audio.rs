use morse::audio::{samples_per_symbol, Beep, BeepVec, Sample, FRAME_RATE};
use morse::encoder::Encoder;
use morse::{encode, AudioSource};

fn drain(source: &mut AudioSource) -> Vec<Sample> {
    let mut out = Vec::new();
    while let Some(s) = source.next() {
        out.push(s);
    }
    out
}

#[test]
fn beep_vec_starts_empty() {
    let v = BeepVec::new();
    assert_eq!(v.get(0), None);
    assert_eq!(v.get(31), None);
    assert_eq!(v.get(usize::MAX), None);
}

#[test]
fn beep_vec_push_and_get() {
    let mut v = BeepVec::new();
    v.push(Beep::On);
    v.push(Beep::Off);
    v.push(Beep::On);
    assert_eq!(v.get(0), Some(Beep::On));
    assert_eq!(v.get(1), Some(Beep::Off));
    assert_eq!(v.get(2), Some(Beep::On));
    assert_eq!(v.get(3), None);
}

#[test]
fn beep_vec_across_blocks() {
    let mut v = BeepVec::new();
    for i in 0..100usize {
        v.push(if i % 3 == 0 { Beep::On } else { Beep::Off });
    }
    for i in 0..100usize {
        assert_eq!(v.get(i), Some(if i % 3 == 0 { Beep::On } else { Beep::Off }));
    }
    assert_eq!(v.get(100), None);
    for _ in 0..36 {
        v.pop();
    }
    assert_eq!(v.get(63), Some(Beep::On));
    assert_eq!(v.get(64), None);
    v.pop();
    assert_eq!(v.get(63), None);
    assert_eq!(v.get(62), Some(Beep::Off));
}

#[test]
fn beep_vec_pop_then_push_overwrites() {
    let mut v = BeepVec::new();
    v.push(Beep::On);
    v.push(Beep::On);
    v.pop();
    v.push(Beep::Off);
    assert_eq!(v.get(0), Some(Beep::On));
    assert_eq!(v.get(1), Some(Beep::Off));
    assert_eq!(v.get(2), None);
}

#[test]
fn beep_vec_pop_on_empty_does_nothing() {
    let mut v = BeepVec::new();
    v.pop();
    assert_eq!(v.get(0), None);
    v.push(Beep::On);
    assert_eq!(v.get(0), Some(Beep::On));
    v.pop();
    v.pop();
    assert_eq!(v.get(0), None);
    v.push(Beep::Off);
    assert_eq!(v.get(0), Some(Beep::Off));
    assert_eq!(v.get(1), None);
}

#[test]
fn beep_vec_pop_empties_a_block() {
    let mut v = BeepVec::new();
    for _ in 0..33 {
        v.push(Beep::On);
    }
    assert_eq!(v.get(32), Some(Beep::On));
    v.pop();
    assert_eq!(v.get(32), None);
    assert_eq!(v.get(31), Some(Beep::On));
    v.push(Beep::Off);
    assert_eq!(v.get(32), Some(Beep::Off));
}

#[test]
fn samples_per_symbol_halves_with_each_level() {
    assert_eq!(FRAME_RATE, 48000);
    assert_eq!(samples_per_symbol(0), 24000);
    assert_eq!(samples_per_symbol(1), 12000);
    assert_eq!(samples_per_symbol(2), 6000);
    assert_eq!(samples_per_symbol(7), 187);
    assert_eq!(samples_per_symbol(14), 1);
    assert_eq!(samples_per_symbol(15), 0);
    assert_eq!(samples_per_symbol(16), 0);
    assert_eq!(samples_per_symbol(255), 0);
}

#[test]
fn empty_timeline_gives_no_sample() {
    let mut source = AudioSource::new(4);
    assert_eq!(source.next(), None);
    assert_eq!(source.next(), None);
}

#[test]
fn sample_count_is_units_times_rate() {
    for rate in [1u32, 2, 5, 16] {
        let mut source = AudioSource::new(rate);
        encode(&mut source, "SOS").unwrap();
        // S: 3 dots and 2 gaps = 5; O: 3 dashes and 2 gaps = 11; two letter gaps of 3
        let units = 5 + 3 + 11 + 3 + 5;
        assert_eq!(drain(&mut source).len(), units * rate as usize);
    }
}

#[test]
fn samples_of_dot_gap_dash() {
    let mut source = AudioSource::new(2);
    source.dot();
    source.space();
    source.dash();
    assert_eq!(
        drain(&mut source),
        vec![
            Sample::Tone { step: 0 },
            Sample::Tone { step: 1 },
            Sample::Silence,
            Sample::Silence,
            Sample::Tone { step: 0 },
            Sample::Tone { step: 1 },
            Sample::Tone { step: 0 },
            Sample::Tone { step: 1 },
            Sample::Tone { step: 0 },
            Sample::Tone { step: 1 },
        ]
    );
    assert_eq!(source.next(), None);
}

#[test]
fn first_sample_of_a_silent_unit_is_silence() {
    let rate = 3usize;
    let mut source = AudioSource::new(rate as u32);
    encode(&mut source, "ET").unwrap();
    // . then 3 gaps then ---
    let samples = drain(&mut source);
    assert_eq!(samples.len(), 7 * rate);
    for unit in 1..4 {
        assert_eq!(samples[unit * rate], Sample::Silence);
    }
    assert_eq!(samples[0], Sample::Tone { step: 0 });
    assert_eq!(samples[4 * rate], Sample::Tone { step: 0 });
    assert_eq!(samples[4 * rate + 2], Sample::Tone { step: 2 });
}

#[test]
fn audio_sink_pop_removes_one_unit() {
    let mut source = AudioSource::new(1);
    source.dash();
    source.pop();
    assert_eq!(drain(&mut source).len(), 2);
}

#[test]
fn audio_timeline_grows_after_it_was_played() {
    let mut source = AudioSource::new(2);
    source.dot();
    assert_eq!(drain(&mut source).len(), 2);
    source.space();
    assert_eq!(drain(&mut source), vec![Sample::Silence, Sample::Silence]);
}

#[test]
fn audio_sink_rejects_unsupported_line() {
    let mut source = AudioSource::new(1);
    assert!(encode(&mut source, "E@").is_none());
    // the dot and its three silent units were handed over before the failure
    assert_eq!(
        drain(&mut source),
        vec![Sample::Tone { step: 0 }, Sample::Silence, Sample::Silence, Sample::Silence]
    );
}

#[test]
fn lines_follow_each_other_on_one_timeline() {
    let mut source = AudioSource::new(1);
    encode(&mut source, "E").unwrap();
    encode(&mut source, "E").unwrap();
    assert_eq!(drain(&mut source), vec![Sample::Tone { step: 0 }, Sample::Tone { step: 0 }]);
}
