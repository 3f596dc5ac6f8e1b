use rustafx::buffer_view::BufferViewMut;
use rustafx::delay::{
    DigitalDelay, DEFAULT_DELAY_TIME, DEFAULT_DRY_GAIN, DEFAULT_FEEDBACK, DEFAULT_WET_GAIN,
};
use rustafx::SCALE;

#[test]
fn test_new_delay() {
    let delay = DigitalDelay::new(2);
    assert_eq!(delay.delay_time(), DEFAULT_DELAY_TIME);
    assert_eq!(delay.feedback(), DEFAULT_FEEDBACK);
    assert_eq!(delay.dry_gain(), DEFAULT_DRY_GAIN);
    assert_eq!(delay.wet_gain(), DEFAULT_WET_GAIN);
    assert_eq!(delay.num_channels(), 2);
}

#[test]
fn test_parameter_setters() {
    let mut delay = DigitalDelay::new(1);

    delay.set_delay_time(737_000_000);
    assert_eq!(delay.delay_time(), 737_000_000);

    delay.set_feedback(430_000);
    assert_eq!(delay.feedback(), 430_000);

    delay.set_dry_gain(290_000);
    assert_eq!(delay.dry_gain(), 290_000);

    delay.set_wet_gain(120_000);
    assert_eq!(delay.wet_gain(), 120_000);
}

#[test]
fn test_prepare() {
    let mut delay = DigitalDelay::new(1);
    delay.set_delay_time(100_000_000);
    delay.prepare(48000, 128);

    // At 48 kHz, a 100 ms delay is 4800 samples.
    assert_eq!(delay.delay_int(), 4800);
    assert_eq!(delay.delay_frac(), 0);

    // The delay line must be a power of two and large enough for the
    // maximum delay time (1000 ms).
    let min_size: usize = 48000;
    let len = delay.delay_line_len();
    assert!(len >= min_size);
    assert!(len.is_power_of_two());
}

#[test]
fn test_process_dry_only() {
    let mut delay = DigitalDelay::new(1);
    delay.set_wet_gain(0);
    delay.set_dry_gain(1_000_000);
    delay.prepare(48000, 128);

    let buffer: Vec<i64> = vec![1_000_000, 500_000, -500_000, -1_000_000];
    let mut view = BufferViewMut::new(vec![buffer]);
    delay.process_inplace(&mut view);

    // With wet gain zero, the output equals the input.
    let out = view.channel(0);
    assert_eq!(out.as_slice(), &[1_000_000, 500_000, -500_000, -1_000_000]);
}

#[test]
fn test_process_wet_only() {
    let mut delay = DigitalDelay::new(1);
    delay.set_delay_time(11_000_000);
    delay.set_feedback(0);
    delay.set_dry_gain(0);
    delay.set_wet_gain(1_000_000);
    delay.prepare(48000, 128);

    let mut buffer: Vec<i64> = vec![1_000_000, 500_000, -500_000, -1_000_000];
    buffer.resize(1000, 0); // Enough samples to hear the delay
    let mut view = BufferViewMut::new(vec![buffer]);
    delay.process_inplace(&mut view);

    // The first samples are silent (the dry gain is zero).
    let out = view.channel(0);
    let expected_delay: usize = 48 * 11;
    for i in 0..expected_delay {
        assert!(out[i] == 0, "Expected buffer[{}]: {} to be zero", i, out[i]);
    }

    // After the delay time, the signal reappears unchanged.
    assert_eq!(
        &out[expected_delay..expected_delay + 4],
        &[1_000_000, 500_000, -500_000, -1_000_000]
    );
}

#[test]
fn test_feedback() {
    let delay_time: u64 = 11_000_000; // 11 ms
    let feedback: i64 = 300_000; // 0.3

    let mut delay = DigitalDelay::new(1);
    delay.set_delay_time(delay_time);
    delay.set_feedback(feedback);
    delay.set_dry_gain(0);
    delay.set_wet_gain(1_000_000);
    delay.prepare(48000, 128);

    // Send an impulse
    let mut buffer: Vec<i64> = vec![1_000_000];
    buffer.resize(2000, 0); // Enough for several echoes
    let mut view = BufferViewMut::new(vec![buffer]);
    delay.process_inplace(&mut view);

    // Check the impulse and its echoes
    let out = view.channel(0);
    let expected_delay: usize = 48 * 11;
    let mut amplitude: i64 = 1_000_000;
    for i in 0..out.len() {
        if i % expected_delay > 0 || i == 0 {
            assert!(out[i] == 0, "Expected buffer[{}]: {} to be zero", i, out[i]);
        } else {
            assert!(
                out[i] == amplitude,
                "Expected buffer[{}]: {} to be {}",
                i,
                out[i],
                amplitude
            );
            amplitude = amplitude * feedback / SCALE;
        }
    }
}

#[test]
fn test_process_stereo() {
    let delay_time: u64 = 11_000_000; // 11 ms
    let feedback: i64 = 300_000; // 0.3

    let mut delay = DigitalDelay::new(2);
    delay.set_delay_time(delay_time);
    delay.set_feedback(feedback);
    delay.set_dry_gain(0);
    delay.set_wet_gain(1_000_000);
    delay.prepare(48000, 128);

    // Let the right channel be slightly delayed
    let mut left: Vec<i64> = vec![1_000_000, 0, 0];
    let mut right: Vec<i64> = vec![0, 0, 500_000];
    left.resize(2000, 0); // Enough samples to hear several echoes
    right.resize(2000, 0);
    let mut view = BufferViewMut::new(vec![left, right]);
    delay.process_inplace(&mut view);

    // Check the first 3 echoes: no cross-channel leakage.
    let mut gain: i64 = 1_000_000;
    for i in 1..=3usize {
        let expected_delay: usize = 48 * 11 * i;
        let l = view.channel(0);
        let r = view.channel(1);
        assert_eq!(
            &l[expected_delay..expected_delay + 3],
            &[gain, 0, 0],
            "left echo {}",
            i
        );
        assert_eq!(
            &r[expected_delay..expected_delay + 3],
            &[0, 0, gain / 2],
            "right echo {}",
            i
        );
        gain = gain * feedback / SCALE;
    }
}

#[test]
fn test_dry_identity_with_feedback() {
    // Dry gain one, wet gain zero: the block passes through unchanged even
    // with a non-trivial delay time and feedback.
    let mut delay = DigitalDelay::new(1);
    delay.set_delay_time(7_000_000);
    delay.set_feedback(900_000);
    delay.set_dry_gain(1_000_000);
    delay.set_wet_gain(0);
    delay.prepare(44100, 64);

    let input: Vec<i64> = vec![3, -17, 250_000, -1_000_000, 999_999, 0, 42];
    let mut view = BufferViewMut::new(vec![input.clone()]);
    delay.process_inplace(&mut view);
    assert_eq!(view.channel(0).as_slice(), input.as_slice());
}

#[test]
fn test_clear_history() {
    // reset zeroes all delay-line content and the read cursor without
    // altering the delay-line capacity.
    let mut delay = DigitalDelay::new(1);
    delay.set_delay_time(11_000_000);
    delay.set_feedback(0);
    delay.set_dry_gain(0);
    delay.set_wet_gain(1_000_000);
    delay.prepare(48000, 128);

    let mut buffer: Vec<i64> = vec![1_000_000];
    buffer.resize(600, 0);
    let mut view = BufferViewMut::new(vec![buffer]);
    delay.process_inplace(&mut view);
    let len_before = delay.delay_line_len();
    assert!(delay.read_index() != 0);

    delay.reset();
    assert_eq!(delay.delay_line_len(), len_before);
    assert_eq!(delay.read_index(), 0);

    // The impulse deposited above must not echo back after the reset: a
    // silent input block stays silent.
    let silence: Vec<i64> = vec![0; 1000];
    let mut view = BufferViewMut::new(vec![silence]);
    delay.process_inplace(&mut view);
    for i in 0..1000 {
        assert_eq!(view.channel(0)[i], 0, "ghost audio at {}", i);
    }
}

#[test]
fn test_configure_sizing() {
    // The delay line is a power of two and holds at least
    // ceil(1000 ms * rate / 1000) samples, for several rates.
    for &rate in &[1u64, 100, 1000, 44100, 48000, 96000] {
        let mut delay = DigitalDelay::new(1);
        delay.prepare(rate, 128);
        let len = delay.delay_line_len();
        assert!(len.is_power_of_two(), "rate {}: {} not a power of two", rate, len);
        assert!(len as u64 >= rate, "rate {}: {} too small", rate, len);
        // Minimality: halving the length would not hold the maximum delay.
        assert!(len == 1 || ((len / 2) as u64) < rate);
    }
}

#[test]
fn test_prepare_fractional() {
    // 10.5 ms at 1 kHz is 10.5 samples: integer part 10, fractional part
    // one half (500_000 in millionths).
    let mut delay = DigitalDelay::new(1);
    delay.set_delay_time(10_500_000);
    delay.prepare(1000, 32);
    assert_eq!(delay.delay_int(), 10);
    assert_eq!(delay.delay_frac(), 500_000);
}

#[test]
fn test_read_cursor_advance() {
    // The shared read cursor advances by the block length after each block,
    // reduced modulo the line length.
    let mut delay = DigitalDelay::new(1);
    delay.prepare(48000, 128);
    assert_eq!(delay.read_index(), 0);

    let block: Vec<i64> = vec![0; 128];
    let mut view = BufferViewMut::new(vec![block.clone()]);
    delay.process_inplace(&mut view);
    assert_eq!(delay.read_index(), 128);

    let mut view = BufferViewMut::new(vec![block]);
    delay.process_inplace(&mut view);
    assert_eq!(delay.read_index(), 256);
}

#[test]
fn test_echo_across_blocks() {
    // Delay-line state carries across blocks: an impulse in the first block
    // echoes into the second.
    let mut delay = DigitalDelay::new(1);
    delay.set_delay_time(11_000_000); // 528 samples at 48 kHz
    delay.set_feedback(0);
    delay.set_dry_gain(0);
    delay.set_wet_gain(1_000_000);
    delay.prepare(48000, 300);

    let mut first: Vec<i64> = vec![1_000_000];
    first.resize(300, 0);
    let mut view = BufferViewMut::new(vec![first]);
    delay.process_inplace(&mut view);
    for i in 0..300 {
        assert_eq!(view.channel(0)[i], 0);
    }

    let second: Vec<i64> = vec![0; 300];
    let mut view = BufferViewMut::new(vec![second]);
    delay.process_inplace(&mut view);
    // The echo lands at absolute position 528, i.e. index 228 of this block.
    let out = view.channel(0);
    for i in 0..300 {
        if i == 228 {
            assert_eq!(out[i], 1_000_000);
        } else {
            assert_eq!(out[i], 0, "unexpected audio at {}", i);
        }
    }
}

#[test]
fn test_buffer_view() {
    let view = BufferViewMut::new(vec![vec![1, 2, 3], vec![4, 5, 6]]);
    assert_eq!(view.num_channels(), 2);
    assert_eq!(view.num_samples(), 3);
    assert_eq!(view.channel(1)[2], 6);
    let channels = view.into_channels();
    assert_eq!(channels, vec![vec![1, 2, 3], vec![4, 5, 6]]);

    let empty = BufferViewMut::new(Vec::new());
    assert_eq!(empty.num_channels(), 0);
    assert_eq!(empty.num_samples(), 0);
}

#[test]
fn test_wet_gain_scaling() {
    // A wet gain of one half scales the delayed signal exactly.
    let mut delay = DigitalDelay::new(1);
    delay.set_delay_time(1_000_000); // 1 ms = 48 samples at 48 kHz
    delay.set_feedback(0);
    delay.set_dry_gain(0);
    delay.set_wet_gain(500_000);
    delay.prepare(48000, 128);

    let mut buffer: Vec<i64> = vec![800_000];
    buffer.resize(128, 0);
    let mut view = BufferViewMut::new(vec![buffer]);
    delay.process_inplace(&mut view);
    let out = view.channel(0);
    assert_eq!(out[48], 400_000);
    for i in 0..128 {
        if i != 48 {
            assert_eq!(out[i], 0);
        }
    }
}
