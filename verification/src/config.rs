//! System configuration: everything that is a property of the
//! installation rather than of a show. Times are milliseconds.

use vstd::prelude::*;

verus! {

/// Settings of the transmitter host: radio, MIDI attachment, show file
/// and lights-out policy. The lights-out window is the idle interval
/// `[open, close)` after the last effect during which periodic "off"
/// keepalives are sent, one per period.
#[derive(Debug)]
pub struct ConfigFile {
    /// Path of the SPI device the radio hangs off.
    pub spi_device: String,
    /// Radio carrier frequency in Hz.
    pub frequency: u32,
    /// Id this transmitter sends from; receivers expect it below 10.
    pub transmitter_id: u8,
    /// Transmit power in dBm, between -18 and +20.
    pub transmitter_power: i8,
    /// Time to let the radio settle after a reset, in milliseconds.
    pub settle_time_millis: Option<u64>,
    /// Client name to register with the MIDI system.
    pub midi_client_name: String,
    /// Prefix of the MIDI port to attach to.
    pub midi_port: String,
    /// MIDI channel carrying the out-of-show controls (sustain, test,
    /// reset).
    pub midi_control_channel: u8,
    /// Path of the show file to load on startup.
    pub show_file: String,
    /// Depth of the channel between the MIDI thread and the director.
    pub channel_buf_depth: Option<usize>,
    /// Idle time after which lights-out keepalives begin, in ms.
    pub lights_out_window_open_millis: u64,
    /// Idle time after which lights-out keepalives cease, in ms.
    pub lights_out_window_close_millis: u64,
    /// Time between two lights-out keepalives, in ms.
    pub lights_out_period_millis: u64,
}

impl Clone for ConfigFile {
    fn clone(&self) -> (r: Self)
        ensures
            r == *self,
    {
        ConfigFile {
            spi_device: self.spi_device.clone(),
            frequency: self.frequency,
            transmitter_id: self.transmitter_id,
            transmitter_power: self.transmitter_power,
            settle_time_millis: self.settle_time_millis,
            midi_client_name: self.midi_client_name.clone(),
            midi_port: self.midi_port.clone(),
            midi_control_channel: self.midi_control_channel,
            show_file: self.show_file.clone(),
            channel_buf_depth: self.channel_buf_depth,
            lights_out_window_open_millis: self.lights_out_window_open_millis,
            lights_out_window_close_millis: self.lights_out_window_close_millis,
            lights_out_period_millis: self.lights_out_period_millis,
        }
    }
}

impl ConfigFile {
    /// The lights-out window as `(open, close)` milliseconds of idleness.
    pub fn lights_out_window(&self) -> (w: (u64, u64))
        ensures
            w.0 == self.lights_out_window_open_millis,
            w.1 == self.lights_out_window_close_millis,
    {
        (self.lights_out_window_open_millis, self.lights_out_window_close_millis)
    }

    /// The time to let pass between two lights-out keepalives, in ms.
    pub fn lights_out_delay(&self) -> (d: u64)
        ensures
            d == self.lights_out_period_millis,
    {
        self.lights_out_period_millis
    }
}

} // verus!
