//! The DAC driver and the I2S settings.

use std::cell::RefCell;
use std::rc::Rc;

use beacon::audio::i2s::{DataWidth, I2sSettings, SlotMask, SlotMode, MCLK_MULTIPLE};
use beacon::audio::{pcm5102a, AudioChannel, AudioEncoder, AudioError, AudioInterface, I2sConfig};
use beacon::audio::Pcm5102a;

#[derive(Clone, Default)]
struct Wire {
    writes: Rc<RefCell<Vec<Vec<u8>>>>,
    failing: Rc<RefCell<bool>>,
}

impl AudioInterface for Wire {
    fn write(&mut self, bytes: &[u8]) -> Result<(), AudioError> {
        if *self.failing.borrow() {
            return Err(AudioError::Transmission);
        }
        self.writes.borrow_mut().push(bytes.to_vec());
        Ok(())
    }
}

#[test]
fn samples_go_to_the_right_channel() {
    let wire = Wire::default();
    let mut dac = Pcm5102a::new(wire.clone(), 16_000, 2);
    assert_eq!(dac.sample_rate(), 16_000);
    assert_eq!(dac.transmit(0x0102), Ok(()));
    assert!(wire.writes.borrow().is_empty());
    assert_eq!(dac.transmit(-2), Ok(()));
    assert_eq!(
        *wire.writes.borrow(),
        vec![vec![0, 0, 0x02, 0x01, 0, 0, 0xFE, 0xFF]]
    );
}

#[test]
fn the_encoder_picks_the_channel() {
    for left_channel in [true, false] {
        let encoder = AudioEncoder {
            left_channel,
            ..pcm5102a::encoder()
        };
        let wire = Wire::default();
        let mut dac = Pcm5102a::with_encoder(wire.clone(), &encoder, 44_100, 1);
        assert_eq!(dac.sample_rate(), 44_100);
        assert_eq!(dac.transmit(0x0102), Ok(()));
        let expected = if left_channel {
            vec![0x02, 0x01, 0, 0]
        } else {
            vec![0, 0, 0x02, 0x01]
        };
        assert_eq!(*wire.writes.borrow(), vec![expected]);
    }
}

#[test]
fn flushing_writes_what_is_pending() {
    let wire = Wire::default();
    let mut dac = Pcm5102a::new(wire.clone(), 8_000, 512);
    assert_eq!(dac.transmit(i16::MIN), Ok(()));
    assert_eq!(dac.flush(), Ok(()));
    assert_eq!(dac.flush(), Ok(()));
    assert_eq!(*wire.writes.borrow(), vec![vec![0, 0, 0x00, 0x80], vec![]]);
}

#[test]
fn refused_batches_stay_pending() {
    let wire = Wire::default();
    let mut dac = Pcm5102a::new(wire.clone(), 8_000, 1);
    *wire.failing.borrow_mut() = true;
    assert!(dac.is_ready());
    assert_eq!(dac.transmit(7), Err(AudioError::Transmission));
    assert!(!dac.is_ready());
    *wire.failing.borrow_mut() = false;
    assert_eq!(dac.flush(), Ok(()));
    assert!(dac.is_ready());
    assert_eq!(dac.transmit(8), Ok(()));
    assert_eq!(
        *wire.writes.borrow(),
        vec![vec![0, 0, 7, 0], vec![0, 0, 8, 0]]
    );
}

#[test]
fn a_dac_without_a_batch_takes_nothing() {
    assert!(!Pcm5102a::new(Wire::default(), 8_000, 0).is_ready());
}

#[test]
fn the_bit_clock_fits_two_sixteen_bit_channels() {
    let config = I2sConfig::philips_i2s();
    let settings = I2sSettings::derive(&pcm5102a::encoder(), &config);
    assert_eq!(MCLK_MULTIPLE * config.sample_rate, 4_096_000);
    assert_eq!(
        MCLK_MULTIPLE * config.sample_rate / config.clock_divider,
        512_000
    );
    assert_eq!(config.sample_rate * settings.ws_width * 2, 512_000);
}

#[test]
fn settings_follow_the_encoder() {
    let config = I2sConfig::philips_i2s();
    let stereo = I2sSettings::derive(&pcm5102a::encoder(), &config);
    assert_eq!(stereo.data_width, DataWidth::Bits16);
    assert_eq!(stereo.slot_mode, SlotMode::Stereo);
    assert_eq!(stereo.slot_mask, SlotMask::Both);
    assert!(stereo.bit_shift && !stereo.big_endian && !stereo.ws_pol);
    assert_eq!(
        (stereo.mclk, stereo.bclk, stereo.dout, stereo.ws),
        (20, 21, 22, 23)
    );
    let mono = AudioEncoder {
        width_16bit: false,
        stereo: false,
        left_channel: true,
        ..pcm5102a::encoder()
    };
    let settings = I2sSettings::derive(&mono, &config);
    assert_eq!(settings.data_width, DataWidth::Bits24);
    assert_eq!(settings.ws_width, 24);
    assert_eq!(settings.slot_mode, SlotMode::Mono);
    assert_eq!(settings.slot_mask, SlotMask::Left);
    let right = AudioEncoder {
        left_channel: false,
        ..mono
    };
    assert_eq!(
        I2sSettings::derive(&right, &config).slot_mask,
        SlotMask::Right
    );
}
