//! MQTT 5 CONNECT packets read from and written to byte buffers, and the
//! per-topic in-memory commit logs of a broker.
pub mod buf;
pub mod codec;
pub mod properties;
pub mod connect_properties;
pub mod will_properties;
pub mod connect;
pub mod packet;
pub mod volatile;
pub mod data;
pub mod scan;
pub mod roundtrip;
pub mod section_roundtrip;
pub mod packet_roundtrip;

pub use codec::{Error, Protocol, QoS};
pub use connect::{Connect, LastWill, Login};
pub use connect_properties::ConnectProperties;
pub use packet::{mqtt_read, FixedHeader, Packet};
pub use will_properties::WillProperties;
