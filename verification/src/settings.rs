//! Configuration of the serial devices that the reactor serves.
//!
//! These are plain configuration values: nothing here touches a device. The host turns each
//! [`SerialSetting`] into an open device handle, in the order of [`SerialPlugin::settings`].

use std::time::Duration;
use vstd::prelude::*;

verus! {

/// Baud rate used when none is chosen.
pub const DEFAULT_BAUD_RATE: u32 = 115200;

/// Number of bits per character.
#[derive(Debug, Clone, Copy, PartialEq, Eq)]
pub enum DataBits {
    Five,
    Six,
    Seven,
    Eight,
}

/// Flow control modes.
#[derive(Debug, Clone, Copy, PartialEq, Eq)]
pub enum FlowControl {
    Off,
    Software,
    Hardware,
}

/// Parity checking modes.
#[derive(Debug, Clone, Copy, PartialEq, Eq)]
pub enum Parity {
    Off,
    Odd,
    Even,
}

/// Number of stop bits.
#[derive(Debug, Clone, Copy, PartialEq, Eq)]
pub enum StopBits {
    One,
    Two,
}

/// The duration that `Duration::from_millis` builds from a number of milliseconds.
pub uninterp spec fn millis_duration(millis: u64) -> Duration;

/// `Duration::from_millis` is a function of its argument alone; its result is known here only
/// by the name [`millis_duration`].
pub assume_specification[ Duration::from_millis ](millis: u64) -> (d: Duration)
    ensures
        d == millis_duration(millis),
;

/// Settings of one serial port.
#[derive(Debug, PartialEq, Eq)]
pub struct SerialSetting {
    /// The intuitive name for this serial port
    pub label: Option<String>,
    /// The port name, usually the device path
    pub port_name: String,
    /// The baud rate in symbols-per-second
    pub baud_rate: u32,
    /// Number of bits used to represent a character sent on the line
    pub data_bits: DataBits,
    /// The type of signalling to use for controlling data transfer
    pub flow_control: FlowControl,
    /// The type of parity to use for error checking
    pub parity: Parity,
    /// Number of bits to use to signal the end of a character
    pub stop_bits: StopBits,
    /// Amount of time to wait to receive data before timing out
    pub timeout: Duration,
}

impl SerialSetting {
    /// The label under which the port is known: the explicit label, or else the port name.
    pub open spec fn spec_label(&self) -> Seq<char> {
        match self.label {
            Some(label) => label@,
            None => self.port_name@,
        }
    }

    /// A setting that names only a port and a baud rate: no label, eight data bits, no flow
    /// control, no parity, one stop bit and a zero timeout.
    pub open spec fn is_plain(&self, port_name: Seq<char>, baud_rate: u32) -> bool {
        &&& self.label is None
        &&& self.port_name@ == port_name
        &&& self.baud_rate == baud_rate
        &&& self.data_bits == DataBits::Eight
        &&& self.flow_control == FlowControl::Off
        &&& self.parity == Parity::Off
        &&& self.stop_bits == StopBits::One
        &&& self.timeout == millis_duration(0)
    }

    /// The label under which the port is registered.
    pub fn effective_label(&self) -> (label: String)
        ensures
            label@ == self.spec_label(),
    {
        match &self.label {
            Some(label) => label.clone(),
            None => self.port_name.clone(),
        }
    }
}

impl Clone for SerialSetting {
    fn clone(&self) -> (copy: Self)
        ensures
            copy.label == self.label,
            copy.port_name == self.port_name,
            copy.baud_rate == self.baud_rate,
            copy.data_bits == self.data_bits,
            copy.flow_control == self.flow_control,
            copy.parity == self.parity,
            copy.stop_bits == self.stop_bits,
            copy.timeout == self.timeout,
    {
        let label = match &self.label {
            Some(label) => Some(label.clone()),
            None => None,
        };
        SerialSetting {
            label,
            port_name: self.port_name.clone(),
            baud_rate: self.baud_rate,
            data_bits: self.data_bits,
            flow_control: self.flow_control,
            parity: self.parity,
            stop_bits: self.stop_bits,
            timeout: self.timeout,
        }
    }
}

impl Default for SerialSetting {
    fn default() -> (setting: Self)
        ensures
            setting.is_plain(Seq::<char>::empty(), DEFAULT_BAUD_RATE),
    {
        SerialSetting {
            label: None,
            port_name: String::new(),
            baud_rate: DEFAULT_BAUD_RATE,
            data_bits: DataBits::Eight,
            flow_control: FlowControl::Off,
            parity: Parity::Off,
            stop_bits: StopBits::One,
            timeout: Duration::from_millis(0),
        }
    }
}

/// The serial ports that a host asks for, in registration order.
pub struct SerialPlugin {
    pub settings: Vec<SerialSetting>,
}

impl SerialPlugin {
    /// A plugin for a single port, named by its device path, with default line settings.
    pub fn new(port_name: &str, baud_rate: u32) -> (plugin: Self)
        ensures
            plugin.settings@.len() == 1,
            plugin.settings@[0].is_plain(port_name@, baud_rate),
    {
        let setting = SerialSetting {
            label: None,
            port_name: port_name.to_owned(),
            baud_rate,
            data_bits: DataBits::Eight,
            flow_control: FlowControl::Off,
            parity: Parity::Off,
            stop_bits: StopBits::One,
            timeout: Duration::from_millis(0),
        };
        let mut settings: Vec<SerialSetting> = Vec::new();
        settings.push(setting);
        SerialPlugin { settings }
    }
}

} // verus!
