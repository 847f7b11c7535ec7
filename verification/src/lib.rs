//! Wire-level encoding and decoding of BACnet application messages carried
//! over BACnet/IP.
//!
//! A message travels in four layers. A service message, such as a
//! [`service::whois::Message`], converts to a sequence of tagged values
//! ([`ast`]), which stands on the wire in the tagged encoding ([`encoding`])
//! after an APDU header ([`apdu`]). The APDU travels in an NPDU of the network
//! layer ([`network`]), and the NPDU in a frame of the BACnet/IP virtual link
//! layer ([`bacnet_ip`]), which is one UDP datagram. [`datagram`] puts the
//! layers together.
//!
//! Every function of a layer is a function of its arguments alone. What a
//! function writes or reads is stated over the octets and over the values
//! that the library's types stand for, and for each layer it is proved that
//! reading what was written gives the value back. Reading never fails
//! otherwise than by returning the error of the layer that refused the
//! octets.

pub mod apdu;
pub mod ast;
pub mod bacnet_ip;
pub mod bytes;
pub mod datagram;
pub mod encoding;
pub mod network;
pub mod service;
