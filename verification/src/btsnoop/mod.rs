//! Decoders for Bluetooth HCI captures: RFCOMM frames, the HFP AT commands
//! they carry, and AVCTP/AVRCP media-control messages.

pub mod avrcp;
pub mod hfp;
pub mod rfcomm;
