//! Non-blocking multi-port serial I/O, as a reactor core that performs no I/O itself.
//!
//! A host exchanges bytes with any number of serial devices without ever blocking its own
//! loop. It owns the device handles and one readiness poller, and on every tick it asks this
//! crate what to do: [`reactor`] says which ports to drain, a [`read_pump::ReadPump`] drains one
//! port into a [`SerialReadEvent`], and a [`write_pump::WritePump`] pushes one
//! [`SerialWriteEvent`] to its port. The ports and their labels live in a [`table::PortTable`].
//!
//! What holds of whole drain cycles, whole write requests and whole ticks, whatever the
//! devices do, is stated and proved in [`read_cycle`], [`write_cycle`] and [`tick`].

pub mod events;
pub mod reactor;
pub mod read_cycle;
pub mod read_pump;
pub mod settings;
pub mod table;
pub mod tick;
pub mod write_cycle;
pub mod write_pump;

pub use events::{SerialReadEvent, SerialWriteEvent};
pub use settings::{DataBits, FlowControl, Parity, SerialPlugin, SerialSetting, StopBits};
