//! I2S transmit settings: what a channel must be configured with for a DAC's
//! serial format on a given bus.

use vstd::prelude::*;

use super::encoder::AudioEncoder;

verus! {

/// DMA descriptors of a channel.
pub const DMA_DESCRIPTORS: u32 = 6;

/// Frames per DMA descriptor.
pub const DMA_FRAMES: u32 = 240;

/// The master clock runs at this multiple of the sample rate.
pub const MCLK_MULTIPLE: u32 = 256;

/// Physical I2S bus configuration: timing, pins, and DMA chunk size.
#[derive(Clone, Copy, Debug, PartialEq, Eq, Structural)]
pub struct I2sConfig {
    /// Audio sample rate in Hz.
    pub sample_rate: u32,
    /// Bit-clock divider applied to the master clock.
    pub clock_divider: u32,
    /// GPIO pin number for the master clock.
    pub mclk_pin: u8,
    /// GPIO pin number for the bit clock.
    pub bclk_pin: u8,
    /// GPIO pin number for serial data out.
    pub dout_pin: u8,
    /// GPIO pin number for word select.
    pub ws_pin: u8,
    /// Number of samples per DMA write. Larger values increase latency but
    /// reduce CPU overhead.
    pub chunk_size: usize,
}

/// The Philips I2S standard at 16 kHz on the MOVE-IIIa pins.
pub open spec fn philips_i2s_config() -> I2sConfig {
    I2sConfig {
        sample_rate: 16_000,
        clock_divider: 8,
        mclk_pin: 20,
        bclk_pin: 21,
        dout_pin: 22,
        ws_pin: 23,
        chunk_size: 512,
    }
}

impl I2sConfig {
    /// The Philips I2S standard at 16 kHz on the MOVE-IIIa pins. The master
    /// clock is 256 times 16 kHz, 4.096 MHz; an eighth of it is the 512 kHz that
    /// two 16-bit channels need.
    pub fn philips_i2s() -> (config: Self)
        ensures
            config == philips_i2s_config(),
    {
        I2sConfig {
            sample_rate: 16_000,
            clock_divider: 8,
            mclk_pin: 20,
            bclk_pin: 21,
            dout_pin: 22,
            ws_pin: 23,
            chunk_size: 512,
        }
    }
}

/// Bits per sample.
#[derive(Clone, Copy, Debug, PartialEq, Eq, Structural)]
pub enum DataWidth {
    /// 16-bit samples.
    Bits16,
    /// 24-bit samples.
    Bits24,
}

/// Channels per frame.
#[derive(Clone, Copy, Debug, PartialEq, Eq, Structural)]
pub enum SlotMode {
    /// One channel.
    Mono,
    /// Two channels.
    Stereo,
}

/// The slots that carry data.
#[derive(Clone, Copy, Debug, PartialEq, Eq, Structural)]
pub enum SlotMask {
    /// The left slot.
    Left,
    /// The right slot.
    Right,
    /// Both slots.
    Both,
}

/// Everything a standard-mode transmit channel is configured with that the DAC
/// and the bus decide.
#[derive(Clone, Copy, Debug, PartialEq, Eq, Structural)]
pub struct I2sSettings {
    /// Sample rate in Hz.
    pub sample_rate_hz: u32,
    /// Bit-clock divider.
    pub bclk_div: u32,
    /// Bits per sample.
    pub data_width: DataWidth,
    /// Channels per frame.
    pub slot_mode: SlotMode,
    /// The slots that carry data.
    pub slot_mask: SlotMask,
    /// Width of the word-select pulse, in bits.
    pub ws_width: u32,
    /// Word select is inverted.
    pub ws_pol: bool,
    /// Data is delayed by one bit clock.
    pub bit_shift: bool,
    /// Data is aligned to the left of the slot.
    pub left_align: bool,
    /// The most significant byte comes first.
    pub big_endian: bool,
    /// The least significant bit comes first.
    pub bit_order_lsb: bool,
    /// Master-clock pin.
    pub mclk: i32,
    /// Bit-clock pin.
    pub bclk: i32,
    /// Word-select pin.
    pub ws: i32,
    /// Data-out pin.
    pub dout: i32,
}

/// The settings for a DAC's format on a bus.
pub open spec fn settings_for(encoder: AudioEncoder, config: I2sConfig) -> I2sSettings {
    I2sSettings {
        sample_rate_hz: config.sample_rate,
        bclk_div: config.clock_divider,
        data_width: if encoder.width_16bit {
            DataWidth::Bits16
        } else {
            DataWidth::Bits24
        },
        slot_mode: if encoder.stereo {
            SlotMode::Stereo
        } else {
            SlotMode::Mono
        },
        slot_mask: if encoder.stereo {
            SlotMask::Both
        } else if encoder.left_channel {
            SlotMask::Left
        } else {
            SlotMask::Right
        },
        ws_width: if encoder.width_16bit {
            16
        } else {
            24
        },
        ws_pol: false,
        bit_shift: encoder.bit_shift,
        left_align: encoder.left_align_data,
        big_endian: encoder.big_endian,
        bit_order_lsb: encoder.least_significant_bit_first,
        mclk: config.mclk_pin as i32,
        bclk: config.bclk_pin as i32,
        ws: config.ws_pin as i32,
        dout: config.dout_pin as i32,
    }
}

impl I2sSettings {
    /// Derive the settings from the DAC's `encoder` format and the bus
    /// `config`.
    pub fn derive(encoder: &AudioEncoder, config: &I2sConfig) -> (settings: Self)
        ensures
            settings == settings_for(*encoder, *config),
    {
        let (data_width, ws_width): (DataWidth, u32) = if encoder.width_16bit {
            (DataWidth::Bits16, 16)
        } else {
            (DataWidth::Bits24, 24)
        };
        let (slot_mode, slot_mask) = if encoder.stereo {
            (SlotMode::Stereo, SlotMask::Both)
        } else if encoder.left_channel {
            (SlotMode::Mono, SlotMask::Left)
        } else {
            (SlotMode::Mono, SlotMask::Right)
        };
        I2sSettings {
            sample_rate_hz: config.sample_rate,
            bclk_div: config.clock_divider,
            data_width,
            slot_mode,
            slot_mask,
            ws_width,
            ws_pol: false,
            bit_shift: encoder.bit_shift,
            left_align: encoder.left_align_data,
            big_endian: encoder.big_endian,
            bit_order_lsb: encoder.least_significant_bit_first,
            mclk: config.mclk_pin as i32,
            bclk: config.bclk_pin as i32,
            ws: config.ws_pin as i32,
            dout: config.dout_pin as i32,
        }
    }
}

/// The bits a frame needs: one sample per slot in use.
pub open spec fn frame_bits(settings: I2sSettings) -> int {
    settings.ws_width * if settings.slot_mode is Stereo {
        2int
    } else {
        1int
    }
}

/// The bit clock is exact for every sample rate whose master clock the divider
/// splits into as many bit clocks as a frame has bits.
pub proof fn law_bit_clock_is_exact(encoder: AudioEncoder, config: I2sConfig)
    requires
        config.clock_divider > 0,
        config.clock_divider * frame_bits(settings_for(encoder, config)) == MCLK_MULTIPLE,
    ensures
        MCLK_MULTIPLE * config.sample_rate / config.clock_divider as int == config.sample_rate
            * frame_bits(settings_for(encoder, config)),
{
    let bits = frame_bits(settings_for(encoder, config));
    let div = config.clock_divider as int;
    let rate = config.sample_rate as int;
    assert(MCLK_MULTIPLE * rate == div * (rate * bits)) by (nonlinear_arith)
        requires
            div * bits == MCLK_MULTIPLE,
    ;
    assert((div * (rate * bits)) / div == rate * bits) by (nonlinear_arith)
        requires
            div > 0,
    ;
}

/// The clock and the pins are those of the channel's configuration, whatever the
/// encoding.
pub proof fn law_clock_and_pins_are_the_channels(encoder: AudioEncoder, config: I2sConfig)
    ensures
        ({
            let settings = settings_for(encoder, config);
            &&& settings.sample_rate_hz == config.sample_rate
            &&& settings.bclk_div == config.clock_divider
            &&& settings.mclk == config.mclk_pin
            &&& settings.bclk == config.bclk_pin
            &&& settings.ws == config.ws_pin
            &&& settings.dout == config.dout_pin
        }),
{
}

/// The layout of a frame is the encoder's, whatever the channel: both slots for
/// stereo and one of them for mono, as wide as the samples.
pub proof fn law_layout_is_the_encoders(encoder: AudioEncoder, config: I2sConfig)
    ensures
        ({
            let settings = settings_for(encoder, config);
            &&& encoder.width_16bit <==> settings.data_width is Bits16
            &&& encoder.width_16bit <==> settings.ws_width == 16
            &&& settings.ws_width == 16 || settings.ws_width == 24
            &&& encoder.stereo <==> settings.slot_mode is Stereo
            &&& encoder.stereo <==> settings.slot_mask is Both
            &&& settings.slot_mask is Left <==> !encoder.stereo && encoder.left_channel
            &&& settings.slot_mask is Right <==> !encoder.stereo && !encoder.left_channel
            &&& !settings.ws_pol
            &&& settings.bit_shift == encoder.bit_shift
            &&& settings.left_align == encoder.left_align_data
            &&& settings.big_endian == encoder.big_endian
            &&& settings.bit_order_lsb == encoder.least_significant_bit_first
        }),
{
}

} // verus!
