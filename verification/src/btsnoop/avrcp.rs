//! AVCTP/AVRCP decoding: AV/C frames, pass-through commands and the
//! vendor-dependent and browsing PDUs of the media control profile.

use crate::text::{
    dec, hex_upper, joined, lemma_joined_step, push_dec, push_dec_padded, push_hex_upper,
    opt_text, push_str, truncate_utf8, truncated, utf8_lossy, utf8_lossy_string, zero_pad,
};
use vstd::prelude::*;
use vstd::string::*;

verus! {

/// Profile identifier of the AV remote control.
pub const AVRCP_PID: u16 = 0x110E;

/// Profile identifier of the AV remote control target.
pub const AVRCP_TARGET_PID: u16 = 0x110C;

/// Big-endian 16-bit value at `i`.
pub open spec fn be16(p: Seq<u8>, i: int) -> nat {
    p[i] as nat * 256 + p[i + 1] as nat
}

/// Big-endian 32-bit value at `i`.
pub open spec fn be32(p: Seq<u8>, i: int) -> nat {
    be16(p, i) * 65536 + be16(p, i + 2)
}

/// Big-endian 64-bit value at `i`.
pub open spec fn be64(p: Seq<u8>, i: int) -> nat {
    be32(p, i) * 4294967296 + be32(p, i + 4)
}

/// Reads a big-endian `u16` at `i`.
pub fn read_be16(p: &[u8], i: usize) -> (r: u16)
    requires
        i + 1 < p@.len(),
    ensures
        r as nat == be16(p@, i as int),
{
    (p[i] as u16) * 256 + (p[i + 1] as u16)
}

/// Reads a big-endian `u32` at `i`.
pub fn read_be32(p: &[u8], i: usize) -> (r: u32)
    requires
        i + 3 < p@.len(),
    ensures
        r as nat == be32(p@, i as int),
{
    let n = p.len();
    let hi = read_be16(p, i) as u32;
    let lo = read_be16(p, i + 2) as u32;
    hi * 65536 + lo
}

/// Reads a big-endian `u64` at `i`.
pub fn read_be64(p: &[u8], i: usize) -> (r: u64)
    requires
        i + 7 < p@.len(),
    ensures
        r as nat == be64(p@, i as int),
{
    let n = p.len();
    let hi = read_be32(p, i) as u64;
    let lo = read_be32(p, i + 4) as u64;
    hi * 4294967296 + lo
}

/// The name of a play status code.
pub open spec fn play_status_name(v: u8) -> Seq<char> {
    if v == 0x00 { "STOPPED"@ }
    else if v == 0x01 { "PLAYING"@ }
    else if v == 0x02 { "PAUSED"@ }
    else if v == 0x03 { "FWD_SEEK"@ }
    else if v == 0x04 { "REV_SEEK"@ }
    else if v == 0xFF { "ERROR"@ }
    else { "UNKNOWN"@ }
}

/// The name of a play status code.
pub fn get_play_status_name(v: u8) -> (r: &'static str)
    ensures
        r@ == play_status_name(v),
{
    match v {
        0x00 => "STOPPED",
        0x01 => "PLAYING",
        0x02 => "PAUSED",
        0x03 => "FWD_SEEK",
        0x04 => "REV_SEEK",
        0xFF => "ERROR",
        _ => "UNKNOWN",
    }
}

/// The name of a battery status code.
pub open spec fn battery_status_name(v: u8) -> Seq<char> {
    if v == 0x00 { "NORMAL"@ }
    else if v == 0x01 { "WARNING"@ }
    else if v == 0x02 { "CRITICAL"@ }
    else if v == 0x03 { "EXTERNAL"@ }
    else if v == 0x04 { "FULL_CHARGE"@ }
    else { "UNKNOWN"@ }
}

/// The name of a battery status code.
pub fn get_battery_status_name(v: u8) -> (r: &'static str)
    ensures
        r@ == battery_status_name(v),
{
    match v {
        0x00 => "NORMAL",
        0x01 => "WARNING",
        0x02 => "CRITICAL",
        0x03 => "EXTERNAL",
        0x04 => "FULL_CHARGE",
        _ => "UNKNOWN",
    }
}

/// The name of a system status code.
pub open spec fn system_status_name(v: u8) -> Seq<char> {
    if v == 0x00 { "POWER_ON"@ }
    else if v == 0x01 { "POWER_OFF"@ }
    else if v == 0x02 { "UNPLUGGED"@ }
    else { "UNKNOWN"@ }
}

/// The name of a system status code.
pub fn get_system_status_name(v: u8) -> (r: &'static str)
    ensures
        r@ == system_status_name(v),
{
    match v {
        0x00 => "POWER_ON",
        0x01 => "POWER_OFF",
        0x02 => "UNPLUGGED",
        _ => "UNKNOWN",
    }
}

/// The name of a value of a player application setting attribute.
pub open spec fn player_app_attr_value_name(attr_id: u8, value_id: u8) -> Seq<char> {
    if 0x01 <= attr_id <= 0x04 && value_id == 0x01 { "OFF"@ }
    else if attr_id == 0x01 && value_id == 0x02 { "ON"@ }
    else if 0x02 <= attr_id <= 0x04 && value_id == 0x02 { "All"@ }
    else if attr_id == 0x02 && value_id == 0x03 { "Single"@ }
    else if (attr_id == 0x02 && value_id == 0x04) || ((attr_id == 0x03 || attr_id == 0x04)
        && value_id == 0x03) { "Group"@ }
    else { "?"@ }
}

/// The name of a value of a player application setting attribute.
pub fn get_player_app_attr_value(attr_id: u8, value_id: u8) -> (r: &'static str)
    ensures
        r@ == player_app_attr_value_name(attr_id, value_id),
{
    match (attr_id, value_id) {
        (0x01..=0x04, 0x01) => "OFF",
        (0x01, 0x02) => "ON",
        (0x02..=0x04, 0x02) => "All",
        (0x02, 0x03) => "Single",
        (0x02, 0x04) | (0x03 | 0x04, 0x03) => "Group",
        _ => "?",
    }
}

/// `m:ss`, or `h:mm:ss` from one hour on, for a duration in milliseconds.
pub open spec fn duration_text(ms: nat) -> Seq<char> {
    let total = ms / 1000;
    let hours = total / 3600;
    let mins = (total % 3600) / 60;
    let secs = total % 60;
    if hours > 0 {
        dec(hours) + ":"@ + zero_pad(dec(mins), 2) + ":"@ + zero_pad(dec(secs), 2)
    } else {
        dec(mins) + ":"@ + zero_pad(dec(secs), 2)
    }
}

/// Formats a duration in milliseconds as `m:ss` or `h:mm:ss`.
pub fn format_ms_as_duration(ms: u32) -> (r: String)
    ensures
        r@ == duration_text(ms as nat),
{
    let total_secs = ms / 1000;
    let hours = total_secs / 3600;
    let mins = (total_secs % 3600) / 60;
    let secs = total_secs % 60;
    let mut s = String::new();
    if hours > 0 {
        push_dec(&mut s, hours as u64);
        push_str(&mut s, ":");
        push_dec_padded(&mut s, mins as u64, 2);
        push_str(&mut s, ":");
        push_dec_padded(&mut s, secs as u64, 2);
    } else {
        push_dec(&mut s, mins as u64);
        push_str(&mut s, ":");
        push_dec_padded(&mut s, secs as u64, 2);
    }
    assert(s@ =~= duration_text(ms as nat));
    s
}

/// `Volume=P% (0xRR)` for an absolute volume byte (7-bit, 0x7F is 100%).
pub open spec fn volume_text(b: u8) -> Seq<char> {
    let raw = b % 128;
    "Volume="@ + dec((raw as nat * 100) / 127) + "% (0x"@ + zero_pad(hex_upper(raw as nat), 2)
        + ")"@
}

/// Renders an absolute volume byte.
pub fn format_volume(b: u8) -> (r: String)
    ensures
        r@ == volume_text(b),
{
    let raw = b & 0x7F;
    assert(raw == b % 128) by (bit_vector)
        requires
            raw == b & 0x7F,
    ;
    let pct = ((raw as u32) * 100) / 127;
    let mut s = String::from_str("Volume=");
    push_dec(&mut s, pct as u64);
    push_str(&mut s, "% (0x");
    push_hex_upper(&mut s, raw as u64, 2);
    push_str(&mut s, ")");
    assert(s@ =~= volume_text(b));
    s
}

/// `0x` followed by a 64-bit unique identifier in 16 upper-case hex digits.
pub open spec fn uid_hex(uid: nat) -> Seq<char> {
    "0x"@ + zero_pad(hex_upper(uid), 16)
}

/// The extra text of a notification response, by event.
pub open spec fn notification_response_text(event_id: u8, data: Seq<u8>) -> Option<Seq<char>> {
    if event_id == 0x01 {
        if data.len() >= 1 { Some("Status="@ + play_status_name(data[0])) } else { None }
    } else if event_id == 0x02 {
        if data.len() >= 8 {
            let uid = be64(data, 0);
            if uid == 0xFFFF_FFFF_FFFF_FFFF {
                Some("Track=None"@)
            } else if uid == 0 {
                Some("Track=Selected"@)
            } else {
                Some("UID="@ + uid_hex(uid))
            }
        } else {
            None
        }
    } else if event_id == 0x05 {
        if data.len() >= 4 {
            let pos = be32(data, 0);
            if pos == 0xFFFF_FFFF { Some("Pos=?"@) } else { Some("Pos="@ + duration_text(pos)) }
        } else {
            None
        }
    } else if event_id == 0x06 {
        if data.len() >= 1 { Some("Battery="@ + battery_status_name(data[0])) } else { None }
    } else if event_id == 0x07 {
        if data.len() >= 1 { Some("System="@ + system_status_name(data[0])) } else { None }
    } else if event_id == 0x0B {
        if data.len() >= 4 {
            Some("PlayerID="@ + dec(be16(data, 0)) + " UIDCounter="@ + dec(be16(data, 2)))
        } else {
            None
        }
    } else if event_id == 0x0C {
        if data.len() >= 2 { Some("UIDCounter="@ + dec(be16(data, 0))) } else { None }
    } else if event_id == 0x0D {
        if data.len() >= 1 { Some(volume_text(data[0])) } else { None }
    } else {
        None
    }
}

/// Decodes the parameters of a notification response.
pub fn decode_notification_response(event_id: u8, data: &[u8]) -> (r: Option<String>)
    ensures
        r matches Some(s) ==> notification_response_text(event_id, data@) == Some(s@),
        r is None ==> notification_response_text(event_id, data@) is None,
{
    match event_id {
        0x01 => {
            if data.len() < 1 {
                return None;
            }
            let mut s = String::from_str("Status=");
            push_str(&mut s, get_play_status_name(data[0]));
            Some(s)
        },
        0x02 => {
            if data.len() < 8 {
                return None;
            }
            let uid = read_be64(data, 0);
            if uid == u64::MAX {
                Some(String::from_str("Track=None"))
            } else if uid == 0 {
                Some(String::from_str("Track=Selected"))
            } else {
                let mut s = String::from_str("UID=");
                push_str(&mut s, "0x");
                push_hex_upper(&mut s, uid, 16);
                assert(s@ =~= "UID="@ + uid_hex(uid as nat));
                Some(s)
            }
        },
        0x05 => {
            if data.len() < 4 {
                return None;
            }
            let pos_ms = read_be32(data, 0);
            if pos_ms == u32::MAX {
                Some(String::from_str("Pos=?"))
            } else {
                let mut s = String::from_str("Pos=");
                let d = format_ms_as_duration(pos_ms);
                push_str(&mut s, d.as_str());
                Some(s)
            }
        },
        0x06 => {
            if data.len() < 1 {
                return None;
            }
            let mut s = String::from_str("Battery=");
            push_str(&mut s, get_battery_status_name(data[0]));
            Some(s)
        },
        0x07 => {
            if data.len() < 1 {
                return None;
            }
            let mut s = String::from_str("System=");
            push_str(&mut s, get_system_status_name(data[0]));
            Some(s)
        },
        0x0B => {
            if data.len() < 4 {
                return None;
            }
            let player_id = read_be16(data, 0);
            let uid_counter = read_be16(data, 2);
            let mut s = String::from_str("PlayerID=");
            push_dec(&mut s, player_id as u64);
            push_str(&mut s, " UIDCounter=");
            push_dec(&mut s, uid_counter as u64);
            assert(s@ =~= "PlayerID="@ + dec(be16(data@, 0)) + " UIDCounter="@ + dec(
                be16(data@, 2),
            ));
            Some(s)
        },
        0x0C => {
            if data.len() < 2 {
                return None;
            }
            let uid_counter = read_be16(data, 0);
            let mut s = String::from_str("UIDCounter=");
            push_dec(&mut s, uid_counter as u64);
            Some(s)
        },
        0x0D => {
            if data.len() < 1 {
                return None;
            }
            Some(format_volume(data[0]))
        },
        _ => None,
    }
}

/// The name of an AV/C command type or response code.
pub open spec fn avc_ctype_name(v: u8) -> Seq<char> {
    if v == 0x00 { "CONTROL"@ }
    else if v == 0x01 { "STATUS"@ }
    else if v == 0x02 { "SPECIFIC_INQUIRY"@ }
    else if v == 0x03 { "NOTIFY"@ }
    else if v == 0x04 { "GENERAL_INQUIRY"@ }
    else if v == 0x08 { "NOT_IMPLEMENTED"@ }
    else if v == 0x09 { "ACCEPTED"@ }
    else if v == 0x0A { "REJECTED"@ }
    else if v == 0x0B { "IN_TRANSITION"@ }
    else if v == 0x0C { "STABLE"@ }
    else if v == 0x0D { "CHANGED"@ }
    else if v == 0x0F { "INTERIM"@ }
    else { "UNKNOWN"@ }
}

/// The name of an AV/C command type or response code.
pub fn get_avc_ctype(v: u8) -> (r: &'static str)
    ensures
        r@ == avc_ctype_name(v),
{
    match v {
        0x00 => "CONTROL",
        0x01 => "STATUS",
        0x02 => "SPECIFIC_INQUIRY",
        0x03 => "NOTIFY",
        0x04 => "GENERAL_INQUIRY",
        0x08 => "NOT_IMPLEMENTED",
        0x09 => "ACCEPTED",
        0x0A => "REJECTED",
        0x0B => "IN_TRANSITION",
        0x0C => "STABLE",
        0x0D => "CHANGED",
        0x0F => "INTERIM",
        _ => "UNKNOWN",
    }
}

/// The name of an AV/C subunit type.
pub open spec fn avc_subunit_name(v: u8) -> Seq<char> {
    if v == 0x00 { "Monitor"@ }
    else if v == 0x01 { "Audio"@ }
    else if v == 0x02 { "Printer"@ }
    else if v == 0x03 { "Disc"@ }
    else if v == 0x04 { "Tape_Recorder"@ }
    else if v == 0x05 { "Tuner"@ }
    else if v == 0x06 { "CA"@ }
    else if v == 0x07 { "Camera"@ }
    else if v == 0x09 { "Panel"@ }
    else if v == 0x0A { "Bulletin_Board"@ }
    else if v == 0x0B { "Camera_Storage"@ }
    else if v == 0x1C { "Vendor_Unique"@ }
    else if v == 0x1D { "Extended"@ }
    else if v == 0x1E { "Extended"@ }
    else if v == 0x1F { "Unit"@ }
    else { "Reserved"@ }
}

/// The name of an AV/C subunit type.
pub fn get_avc_subunit(v: u8) -> (r: &'static str)
    ensures
        r@ == avc_subunit_name(v),
{
    match v {
        0x00 => "Monitor",
        0x01 => "Audio",
        0x02 => "Printer",
        0x03 => "Disc",
        0x04 => "Tape_Recorder",
        0x05 => "Tuner",
        0x06 => "CA",
        0x07 => "Camera",
        0x09 => "Panel",
        0x0A => "Bulletin_Board",
        0x0B => "Camera_Storage",
        0x1C => "Vendor_Unique",
        0x1D => "Extended",
        0x1E => "Extended",
        0x1F => "Unit",
        _ => "Reserved",
    }
}

/// The name of an AV/C opcode.
pub open spec fn avc_opcode_name(v: u8) -> Seq<char> {
    if v == 0x00 { "Vendor_Dependent"@ }
    else if v == 0x30 { "Unit_Info"@ }
    else if v == 0x31 { "Subunit_Info"@ }
    else if v == 0x7C { "Pass_Through"@ }
    else if v == 0xB0 { "Get_Capabilities"@ }
    else if v == 0xB1 { "List_Player_Settings"@ }
    else if v == 0xC0 { "Continue_Response"@ }
    else if v == 0xC1 { "Abort_Continue"@ }
    else { "Unknown_Opcode"@ }
}

/// The name of an AV/C opcode.
pub fn get_avc_opcode(v: u8) -> (r: &'static str)
    ensures
        r@ == avc_opcode_name(v),
{
    match v {
        0x00 => "Vendor_Dependent",
        0x30 => "Unit_Info",
        0x31 => "Subunit_Info",
        0x7C => "Pass_Through",
        0xB0 => "Get_Capabilities",
        0xB1 => "List_Player_Settings",
        0xC0 => "Continue_Response",
        0xC1 => "Abort_Continue",
        _ => "Unknown_Opcode",
    }
}

/// The name of a pass-through operation.
pub open spec fn passthrough_name(v: u8) -> Seq<char> {
    if v == 0x00 { "Select"@ }
    else if v == 0x01 { "Up"@ }
    else if v == 0x02 { "Down"@ }
    else if v == 0x03 { "Left"@ }
    else if v == 0x04 { "Right"@ }
    else if v == 0x05 { "RightUp"@ }
    else if v == 0x06 { "RightDown"@ }
    else if v == 0x07 { "LeftUp"@ }
    else if v == 0x08 { "LeftDown"@ }
    else if v == 0x09 { "RootMenu"@ }
    else if v == 0x0A { "SetupMenu"@ }
    else if v == 0x0B { "ContentsMenu"@ }
    else if v == 0x0C { "FavoriteMenu"@ }
    else if v == 0x0D { "Exit"@ }
    else if v == 0x20 { "0"@ }
    else if v == 0x21 { "1"@ }
    else if v == 0x22 { "2"@ }
    else if v == 0x23 { "3"@ }
    else if v == 0x24 { "4"@ }
    else if v == 0x25 { "5"@ }
    else if v == 0x26 { "6"@ }
    else if v == 0x27 { "7"@ }
    else if v == 0x28 { "8"@ }
    else if v == 0x29 { "9"@ }
    else if v == 0x2A { "Dot"@ }
    else if v == 0x2B { "Enter"@ }
    else if v == 0x2C { "Clear"@ }
    else if v == 0x30 { "ChannelUp"@ }
    else if v == 0x31 { "ChannelDown"@ }
    else if v == 0x32 { "PreviousChannel"@ }
    else if v == 0x33 { "SoundSelect"@ }
    else if v == 0x34 { "InputSelect"@ }
    else if v == 0x35 { "DisplayInfo"@ }
    else if v == 0x36 { "Help"@ }
    else if v == 0x37 { "PageUp"@ }
    else if v == 0x38 { "PageDown"@ }
    else if v == 0x40 { "Power"@ }
    else if v == 0x41 { "VolumeUp"@ }
    else if v == 0x42 { "VolumeDown"@ }
    else if v == 0x43 { "Mute"@ }
    else if v == 0x44 { "Play"@ }
    else if v == 0x45 { "Stop"@ }
    else if v == 0x46 { "Pause"@ }
    else if v == 0x47 { "Record"@ }
    else if v == 0x48 { "Rewind"@ }
    else if v == 0x49 { "FastForward"@ }
    else if v == 0x4A { "Eject"@ }
    else if v == 0x4B { "Forward"@ }
    else if v == 0x4C { "Backward"@ }
    else if v == 0x50 { "Angle"@ }
    else if v == 0x51 { "Subpicture"@ }
    else if v == 0x60 { "F1"@ }
    else if v == 0x61 { "F2"@ }
    else if v == 0x62 { "F3"@ }
    else if v == 0x63 { "F4"@ }
    else if v == 0x64 { "F5"@ }
    else if v == 0x71 { "VendorUnique"@ }
    else if v == 0x7E { "GroupNavigation"@ }
    else { "Unknown"@ }
}

/// The name of a pass-through operation.
pub fn get_passthrough_operation(v: u8) -> (r: &'static str)
    ensures
        r@ == passthrough_name(v),
{
    match v {
        0x00 => "Select",
        0x01 => "Up",
        0x02 => "Down",
        0x03 => "Left",
        0x04 => "Right",
        0x05 => "RightUp",
        0x06 => "RightDown",
        0x07 => "LeftUp",
        0x08 => "LeftDown",
        0x09 => "RootMenu",
        0x0A => "SetupMenu",
        0x0B => "ContentsMenu",
        0x0C => "FavoriteMenu",
        0x0D => "Exit",
        0x20 => "0",
        0x21 => "1",
        0x22 => "2",
        0x23 => "3",
        0x24 => "4",
        0x25 => "5",
        0x26 => "6",
        0x27 => "7",
        0x28 => "8",
        0x29 => "9",
        0x2A => "Dot",
        0x2B => "Enter",
        0x2C => "Clear",
        0x30 => "ChannelUp",
        0x31 => "ChannelDown",
        0x32 => "PreviousChannel",
        0x33 => "SoundSelect",
        0x34 => "InputSelect",
        0x35 => "DisplayInfo",
        0x36 => "Help",
        0x37 => "PageUp",
        0x38 => "PageDown",
        0x40 => "Power",
        0x41 => "VolumeUp",
        0x42 => "VolumeDown",
        0x43 => "Mute",
        0x44 => "Play",
        0x45 => "Stop",
        0x46 => "Pause",
        0x47 => "Record",
        0x48 => "Rewind",
        0x49 => "FastForward",
        0x4A => "Eject",
        0x4B => "Forward",
        0x4C => "Backward",
        0x50 => "Angle",
        0x51 => "Subpicture",
        0x60 => "F1",
        0x61 => "F2",
        0x62 => "F3",
        0x63 => "F4",
        0x64 => "F5",
        0x71 => "VendorUnique",
        0x7E => "GroupNavigation",
        _ => "Unknown",
    }
}

/// The name of a player application setting attribute.
pub open spec fn player_app_attr_name(v: u8) -> Seq<char> {
    if v == 0x01 { "Equalizer"@ }
    else if v == 0x02 { "Repeat"@ }
    else if v == 0x03 { "Shuffle"@ }
    else if v == 0x04 { "Scan"@ }
    else { "Attr?"@ }
}

/// The name of a player application setting attribute.
pub fn get_player_app_attr_name(v: u8) -> (r: &'static str)
    ensures
        r@ == player_app_attr_name(v),
{
    match v {
        0x01 => "Equalizer",
        0x02 => "Repeat",
        0x03 => "Shuffle",
        0x04 => "Scan",
        _ => "Attr?",
    }
}

/// The name of a media element attribute.
pub open spec fn element_attr_name(v: u32) -> Seq<char> {
    if v == 0x01 { "Title"@ }
    else if v == 0x02 { "Artist"@ }
    else if v == 0x03 { "Album"@ }
    else if v == 0x04 { "TrackNum"@ }
    else if v == 0x05 { "NumTracks"@ }
    else if v == 0x06 { "Genre"@ }
    else if v == 0x07 { "Duration"@ }
    else { "Attr?"@ }
}

/// The name of a media element attribute.
pub fn get_element_attr_name(v: u32) -> (r: &'static str)
    ensures
        r@ == element_attr_name(v),
{
    match v {
        0x01 => "Title",
        0x02 => "Artist",
        0x03 => "Album",
        0x04 => "TrackNum",
        0x05 => "NumTracks",
        0x06 => "Genre",
        0x07 => "Duration",
        _ => "Attr?",
    }
}

/// The name of a browsing scope.
pub open spec fn folder_scope_name(v: u8) -> Seq<char> {
    if v == 0x00 { "MediaPlayerList"@ }
    else if v == 0x01 { "VirtualFilesystem"@ }
    else if v == 0x02 { "SearchResultList"@ }
    else if v == 0x03 { "NowPlayingList"@ }
    else { "Unknown"@ }
}

/// The name of a browsing scope.
pub fn get_folder_scope_name(v: u8) -> (r: &'static str)
    ensures
        r@ == folder_scope_name(v),
{
    match v {
        0x00 => "MediaPlayerList",
        0x01 => "VirtualFilesystem",
        0x02 => "SearchResultList",
        0x03 => "NowPlayingList",
        _ => "Unknown",
    }
}

/// The name of an AVRCP status code.
pub open spec fn error_status_name(v: u8) -> Seq<char> {
    if v == 0x00 { "INVALID_COMMAND"@ }
    else if v == 0x01 { "INVALID_PARAMETER"@ }
    else if v == 0x02 { "PARAM_NOT_FOUND"@ }
    else if v == 0x03 { "INTERNAL_ERROR"@ }
    else if v == 0x04 { "SUCCESS"@ }
    else if v == 0x05 { "UID_CHANGED"@ }
    else if v == 0x06 { "RESERVED"@ }
    else if v == 0x07 { "INVALID_DIRECTION"@ }
    else if v == 0x08 { "NOT_A_DIRECTORY"@ }
    else if v == 0x09 { "DOES_NOT_EXIST"@ }
    else if v == 0x0A { "INVALID_SCOPE"@ }
    else if v == 0x0B { "RANGE_OUT_OF_BOUNDS"@ }
    else if v == 0x0C { "UID_IS_A_DIRECTORY"@ }
    else if v == 0x0D { "MEDIA_IN_USE"@ }
    else if v == 0x0E { "NOW_PLAYING_LIST_FULL"@ }
    else if v == 0x0F { "SEARCH_NOT_SUPPORTED"@ }
    else if v == 0x10 { "SEARCH_IN_PROGRESS"@ }
    else if v == 0x11 { "INVALID_PLAYER_ID"@ }
    else if v == 0x12 { "PLAYER_NOT_BROWSABLE"@ }
    else if v == 0x13 { "PLAYER_NOT_ADDRESSED"@ }
    else if v == 0x14 { "NO_VALID_SEARCH_RESULTS"@ }
    else if v == 0x15 { "NO_AVAILABLE_PLAYERS"@ }
    else if v == 0x16 { "ADDRESSED_PLAYER_CHANGED"@ }
    else { "UNKNOWN"@ }
}

/// The name of an AVRCP status code.
pub fn get_avrcp_error_status(v: u8) -> (r: &'static str)
    ensures
        r@ == error_status_name(v),
{
    match v {
        0x00 => "INVALID_COMMAND",
        0x01 => "INVALID_PARAMETER",
        0x02 => "PARAM_NOT_FOUND",
        0x03 => "INTERNAL_ERROR",
        0x04 => "SUCCESS",
        0x05 => "UID_CHANGED",
        0x06 => "RESERVED",
        0x07 => "INVALID_DIRECTION",
        0x08 => "NOT_A_DIRECTORY",
        0x09 => "DOES_NOT_EXIST",
        0x0A => "INVALID_SCOPE",
        0x0B => "RANGE_OUT_OF_BOUNDS",
        0x0C => "UID_IS_A_DIRECTORY",
        0x0D => "MEDIA_IN_USE",
        0x0E => "NOW_PLAYING_LIST_FULL",
        0x0F => "SEARCH_NOT_SUPPORTED",
        0x10 => "SEARCH_IN_PROGRESS",
        0x11 => "INVALID_PLAYER_ID",
        0x12 => "PLAYER_NOT_BROWSABLE",
        0x13 => "PLAYER_NOT_ADDRESSED",
        0x14 => "NO_VALID_SEARCH_RESULTS",
        0x15 => "NO_AVAILABLE_PLAYERS",
        0x16 => "ADDRESSED_PLAYER_CHANGED",
        _ => "UNKNOWN",
    }
}

/// The name of a notification event.
pub open spec fn notification_event_name(v: u8) -> Seq<char> {
    if v == 0x01 { "PLAYBACK_STATUS_CHANGED"@ }
    else if v == 0x02 { "TRACK_CHANGED"@ }
    else if v == 0x03 { "TRACK_REACHED_END"@ }
    else if v == 0x04 { "TRACK_REACHED_START"@ }
    else if v == 0x05 { "PLAYBACK_POS_CHANGED"@ }
    else if v == 0x06 { "BATT_STATUS_CHANGED"@ }
    else if v == 0x07 { "SYSTEM_STATUS_CHANGED"@ }
    else if v == 0x08 { "PLAYER_APP_SETTING_CHANGED"@ }
    else if v == 0x09 { "NOW_PLAYING_CONTENT_CHANGED"@ }
    else if v == 0x0A { "AVAILABLE_PLAYERS_CHANGED"@ }
    else if v == 0x0B { "ADDRESSED_PLAYER_CHANGED"@ }
    else if v == 0x0C { "UIDS_CHANGED"@ }
    else if v == 0x0D { "VOLUME_CHANGED"@ }
    else { "UNKNOWN_EVENT"@ }
}

/// The name of a notification event.
pub fn get_avrcp_notification_event(v: u8) -> (r: &'static str)
    ensures
        r@ == notification_event_name(v),
{
    match v {
        0x01 => "PLAYBACK_STATUS_CHANGED",
        0x02 => "TRACK_CHANGED",
        0x03 => "TRACK_REACHED_END",
        0x04 => "TRACK_REACHED_START",
        0x05 => "PLAYBACK_POS_CHANGED",
        0x06 => "BATT_STATUS_CHANGED",
        0x07 => "SYSTEM_STATUS_CHANGED",
        0x08 => "PLAYER_APP_SETTING_CHANGED",
        0x09 => "NOW_PLAYING_CONTENT_CHANGED",
        0x0A => "AVAILABLE_PLAYERS_CHANGED",
        0x0B => "ADDRESSED_PLAYER_CHANGED",
        0x0C => "UIDS_CHANGED",
        0x0D => "VOLUME_CHANGED",
        _ => "UNKNOWN_EVENT",
    }
}

/// The name of an AVRCP PDU.
pub open spec fn pdu_name(v: u8) -> Seq<char> {
    if v == 0x10 { "GetCapabilities"@ }
    else if v == 0x11 { "ListPlayerAppSettingAttr"@ }
    else if v == 0x12 { "ListPlayerAppSettingValues"@ }
    else if v == 0x13 { "GetCurrentPlayerAppSettingValue"@ }
    else if v == 0x14 { "SetPlayerAppSettingValue"@ }
    else if v == 0x15 { "GetPlayerAppSettingAttrText"@ }
    else if v == 0x16 { "GetPlayerAppSettingValueText"@ }
    else if v == 0x17 { "InformDisplayableCharSet"@ }
    else if v == 0x18 { "InformBatteryStatus"@ }
    else if v == 0x20 { "GetElementAttributes"@ }
    else if v == 0x30 { "GetPlayStatus"@ }
    else if v == 0x31 { "RegisterNotification"@ }
    else if v == 0x40 { "RequestContinuingResponse"@ }
    else if v == 0x41 { "AbortContinuingResponse"@ }
    else if v == 0x50 { "SetAbsoluteVolume"@ }
    else if v == 0x60 { "SetAddressedPlayer"@ }
    else if v == 0x70 { "SetBrowsedPlayer"@ }
    else if v == 0x71 { "GetFolderItems"@ }
    else if v == 0x72 { "ChangePath"@ }
    else if v == 0x73 { "GetItemAttributes"@ }
    else if v == 0x74 { "PlayItem"@ }
    else if v == 0x75 { "GetTotalNumberOfItems"@ }
    else if v == 0x80 { "Search"@ }
    else if v == 0x90 { "AddToNowPlaying"@ }
    else { "Unknown_PDU"@ }
}

/// The name of an AVRCP PDU.
pub fn get_avrcp_pdu_name(v: u8) -> (r: &'static str)
    ensures
        r@ == pdu_name(v),
{
    match v {
        0x10 => "GetCapabilities",
        0x11 => "ListPlayerAppSettingAttr",
        0x12 => "ListPlayerAppSettingValues",
        0x13 => "GetCurrentPlayerAppSettingValue",
        0x14 => "SetPlayerAppSettingValue",
        0x15 => "GetPlayerAppSettingAttrText",
        0x16 => "GetPlayerAppSettingValueText",
        0x17 => "InformDisplayableCharSet",
        0x18 => "InformBatteryStatus",
        0x20 => "GetElementAttributes",
        0x30 => "GetPlayStatus",
        0x31 => "RegisterNotification",
        0x40 => "RequestContinuingResponse",
        0x41 => "AbortContinuingResponse",
        0x50 => "SetAbsoluteVolume",
        0x60 => "SetAddressedPlayer",
        0x70 => "SetBrowsedPlayer",
        0x71 => "GetFolderItems",
        0x72 => "ChangePath",
        0x73 => "GetItemAttributes",
        0x74 => "PlayItem",
        0x75 => "GetTotalNumberOfItems",
        0x80 => "Search",
        0x90 => "AddToNowPlaying",
        _ => "Unknown_PDU",
    }
}


/// A name table indexed by a byte.
#[derive(Clone, Copy)]
pub enum ByteNames {
    /// Notification event names.
    Event,
    /// Player application setting attribute names.
    PlayerAttr,
}

/// The name of byte `b` in table `t`.
pub open spec fn byte_name(t: ByteNames, b: u8) -> Seq<char> {
    match t {
        ByteNames::Event => notification_event_name(b),
        ByteNames::PlayerAttr => player_app_attr_name(b),
    }
}

/// The names of the `count` bytes of `p` starting at `start`.
pub open spec fn byte_names(t: ByteNames, p: Seq<u8>, start: int, count: nat) -> Seq<Seq<char>> {
    Seq::new(count, |i: int| byte_name(t, p[start + i]))
}

/// Appends the names of `count` bytes of `p` from `start`, joined by `, `.
fn push_byte_names(out: &mut String, t: ByteNames, p: &[u8], start: usize, count: usize)
    requires
        start + count <= p@.len(),
    ensures
        final(out)@ == old(out)@ + joined(byte_names(t, p@, start as int, count as nat), ", "@),
{
    let ghost base = out@;
    let ghost parts = byte_names(t, p@, start as int, count as nat);
    let n = p.len();
    let mut i: usize = 0;
    while i < count
        invariant
            n == p@.len(),
            start + count <= p@.len(),
            i <= count,
            parts == byte_names(t, p@, start as int, count as nat),
            out@ == base + joined(parts.take(i as int), ", "@),
        decreases count - i,
    {
        proof {
            lemma_joined_step(parts, ", "@, i as int);
        }
        if i > 0 {
            push_str(out, ", ");
        }
        let b = p[start + i];
        let name = match t {
            ByteNames::Event => get_avrcp_notification_event(b),
            ByteNames::PlayerAttr => get_player_app_attr_name(b),
        };
        push_str(out, name);
        i += 1;
        assert(out@ =~= base + joined(parts.take(i as int), ", "@));
    }
    assert(parts.take(count as int) =~= parts);
}

/// `attr=value` for the `i`-th setting pair of a settings list (pairs start
/// after the count byte).
pub open spec fn pair_text(p: Seq<u8>, i: int) -> Seq<char> {
    player_app_attr_name(p[1 + 2 * i]) + "="@ + player_app_attr_value_name(
        p[1 + 2 * i],
        p[2 + 2 * i],
    )
}

/// The first `k` setting pairs.
pub open spec fn pair_texts(p: Seq<u8>, k: nat) -> Seq<Seq<char>> {
    Seq::new(k, |i: int| pair_text(p, i))
}

/// The number of complete setting pairs announced by `count` that the
/// parameters hold.
pub open spec fn complete_pairs(p: Seq<u8>, count: nat) -> nat {
    let avail = ((p.len() - 1) / 2) as nat;
    if count < avail { count } else { avail }
}

/// Appends the first `k` setting pairs, joined by spaces.
fn push_pairs(out: &mut String, p: &[u8], k: usize)
    requires
        1 + 2 * k <= p@.len(),
    ensures
        final(out)@ == old(out)@ + joined(pair_texts(p@, k as nat), " "@),
{
    let ghost base = out@;
    let ghost parts = pair_texts(p@, k as nat);
    let n = p.len();
    let mut i: usize = 0;
    while i < k
        invariant
            n == p@.len(),
            1 + 2 * k <= p@.len(),
            i <= k,
            parts == pair_texts(p@, k as nat),
            out@ == base + joined(parts.take(i as int), " "@),
        decreases k - i,
    {
        proof {
            lemma_joined_step(parts, " "@, i as int);
        }
        if i > 0 {
            push_str(out, " ");
        }
        let attr_id = p[1 + 2 * i];
        let value_id = p[2 + 2 * i];
        push_str(out, get_player_app_attr_name(attr_id));
        push_str(out, "=");
        push_str(out, get_player_app_attr_value(attr_id, value_id));
        i += 1;
        assert(out@ =~= base + joined(parts.take(i as int), " "@));
    }
    assert(parts.take(k as int) =~= parts);
}

/// The names of the first `k` element attribute identifiers of a
/// GetElementAttributes command (4 bytes each, from offset 9).
pub open spec fn element_attr_names(p: Seq<u8>, k: nat) -> Seq<Seq<char>> {
    Seq::new(k, |i: int| element_attr_name(be32(p, 9 + 4 * i) as u32))
}

/// Appends the names of the first `k` requested element attributes.
fn push_element_attr_names(out: &mut String, p: &[u8], k: usize)
    requires
        9 + 4 * k <= p@.len(),
    ensures
        final(out)@ == old(out)@ + joined(element_attr_names(p@, k as nat), ", "@),
{
    let ghost base = out@;
    let ghost parts = element_attr_names(p@, k as nat);
    let n = p.len();
    let mut i: usize = 0;
    while i < k
        invariant
            n == p@.len(),
            9 + 4 * k <= p@.len(),
            i <= k,
            parts == element_attr_names(p@, k as nat),
            out@ == base + joined(parts.take(i as int), ", "@),
        decreases k - i,
    {
        proof {
            lemma_joined_step(parts, ", "@, i as int);
        }
        if i > 0 {
            push_str(out, ", ");
        }
        let id = read_be32(p, 9 + 4 * i);
        push_str(out, get_element_attr_name(id));
        i += 1;
        assert(out@ =~= base + joined(parts.take(i as int), ", "@));
    }
    assert(parts.take(k as int) =~= parts);
}

/// `name="value"` for one element attribute of a GetElementAttributes
/// response, the value cut to 40 characters.
pub open spec fn element_item(attr_id: nat, value: Seq<u8>) -> Seq<char> {
    element_attr_name(attr_id as u32) + "=\""@ + truncated(utf8_lossy(value), 40) + "\""@
}

/// The items of a GetElementAttributes response, read from `offset` after
/// `done` items of `count`: each attribute is a 4-byte id, 2-byte charset,
/// 2-byte length and the value; reading stops at the first incomplete
/// attribute, and after three items the rest are summed up as `+N more`.
pub open spec fn element_items(p: Seq<u8>, offset: int, done: nat, count: nat) -> Seq<Seq<char>>
    decreases count - done,
{
    if done >= count || p.len() < offset + 8 {
        Seq::empty()
    } else {
        let attr = be32(p, offset);
        let length = be16(p, offset + 6);
        let start = offset + 8;
        if p.len() < start + length {
            Seq::empty()
        } else {
            let item = element_item(attr, p.subrange(start, start + length));
            if done + 1 >= 3 {
                if count > done + 1 {
                    seq![item, "+"@ + dec((count - (done + 1)) as nat) + " more"@]
                } else {
                    seq![item]
                }
            } else {
                seq![item] + element_items(p, start + length, done + 1, count)
            }
        }
    }
}

/// The items of a GetElementAttributes response.
fn element_response_items(p: &[u8], count: usize) -> (r: Vec<String>)
    requires
        p@.len() >= 1,
    ensures
        crate::text::texts(r@) == element_items(p@, 1, 0, count as nat),
{
    let mut items: Vec<String> = Vec::new();
    let mut offset: usize = 1;
    let mut done: usize = 0;
    let n = p.len();
    while done < count
        invariant
            n == p@.len(),
            1 <= offset <= n,
            done <= count,
            items@.len() == done,
            crate::text::texts(items@) + element_items(p@, offset as int, done as nat, count as nat)
                == element_items(p@, 1, 0, count as nat),
        ensures
            element_items(p@, offset as int, done as nat, count as nat) =~= Seq::<Seq<char>>::empty(),
        decreases count - done,
    {
        if n - offset < 8 {
            break;
        }
        let attr_id = read_be32(p, offset);
        let length = read_be16(p, offset + 6) as usize;
        let start = offset + 8;
        if n - start < length {
            break;
        }
        let value = utf8_lossy_string(crate::btsnoop::rfcomm::slice_range(p, start, start + length));
        let mut item = String::new();
        push_str(&mut item, get_element_attr_name(attr_id));
        push_str(&mut item, "=\"");
        let t = truncate_utf8(value.as_str(), 40);
        push_str(&mut item, t.as_str());
        push_str(&mut item, "\"");
        let ghost item_v = item@;
        assert(item_v =~= element_item(attr_id as nat, p@.subrange(start as int, start + length)));
        let ghost old_items = crate::text::texts(items@);
        items.push(item);
        assert(crate::text::texts(items@) =~= old_items.push(item_v));
        offset = start + length;
        done += 1;
        if done >= 3 {
            if count > done {
                let remaining = count - done;
                let mut more = String::from_str("+");
                push_dec(&mut more, remaining as u64);
                push_str(&mut more, " more");
                let ghost more_v = more@;
                let ghost before = crate::text::texts(items@);
                items.push(more);
                assert(crate::text::texts(items@) =~= before.push(more_v));
                assert(crate::text::texts(items@) =~= element_items(p@, 1, 0, count as nat));
            } else {
                assert(crate::text::texts(items@) =~= element_items(p@, 1, 0, count as nat));
            }
            return items;
        }
        assert(crate::text::texts(items@) + element_items(p@, offset as int, done as nat, count as nat)
            =~= element_items(p@, 1, 0, count as nat));
    }
    assert(crate::text::texts(items@) =~= element_items(p@, 1, 0, count as nat));
    items
}


/// The name of a capability identifier.
pub open spec fn capability_name(cap_id: u8) -> Seq<char> {
    if cap_id == 0x02 { "CompanyID"@ } else if cap_id == 0x03 { "EventsSupported"@ } else { "Unknown"@ }
}

/// GetCapabilities parameters.
pub open spec fn get_capabilities_text(is_response: bool, p: Seq<u8>) -> Option<Seq<char>> {
    if p.len() < 1 {
        None
    } else {
        let cap = capability_name(p[0]);
        if is_response && p.len() >= 2 {
            let count = p[1] as nat;
            if p[0] == 0x03 && p.len() >= 2 + count {
                Some("Cap="@ + cap + " ["@ + joined(byte_names(ByteNames::Event, p, 2, count), ", "@)
                    + "]"@)
            } else {
                Some("Cap="@ + cap + " Count="@ + dec(count))
            }
        } else {
            Some("Cap="@ + cap)
        }
    }
}

fn pdu_get_capabilities(is_response: bool, p: &[u8]) -> (r: Option<String>)
    ensures
        opt_text(r) == get_capabilities_text(is_response, p@),
{
    if p.len() < 1 {
        return None;
    }
    let cap_id = p[0];
    let cap_name: &str = if cap_id == 0x02 { "CompanyID" } else if cap_id == 0x03 { "EventsSupported" } else { "Unknown" };
    let mut s = String::from_str("Cap=");
    push_str(&mut s, cap_name);
    if is_response && p.len() >= 2 {
        let count = p[1] as usize;
        if cap_id == 0x03 && p.len() >= 2 + count {
            push_str(&mut s, " [");
            push_byte_names(&mut s, ByteNames::Event, p, 2, count);
            push_str(&mut s, "]");
        } else {
            push_str(&mut s, " Count=");
            push_dec(&mut s, count as u64);
        }
    }
    Some(s)
}

/// ListPlayerApplicationSettingAttributes parameters.
pub open spec fn list_attrs_text(is_response: bool, p: Seq<u8>) -> Option<Seq<char>> {
    if is_response && p.len() >= 1 {
        let count = p[0] as nat;
        if p.len() > count {
            Some("Attrs=["@ + joined(byte_names(ByteNames::PlayerAttr, p, 1, count), ", "@) + "]"@)
        } else {
            Some("NumAttrs="@ + dec(count))
        }
    } else {
        None
    }
}

fn pdu_list_attrs(is_response: bool, p: &[u8]) -> (r: Option<String>)
    ensures
        opt_text(r) == list_attrs_text(is_response, p@),
{
    if is_response && p.len() >= 1 {
        let count = p[0] as usize;
        if p.len() > count {
            let mut s = String::from_str("Attrs=[");
            push_byte_names(&mut s, ByteNames::PlayerAttr, p, 1, count);
            push_str(&mut s, "]");
            Some(s)
        } else {
            let mut s = String::from_str("NumAttrs=");
            push_dec(&mut s, count as u64);
            Some(s)
        }
    } else {
        None
    }
}

/// ListPlayerApplicationSettingValues parameters.
pub open spec fn list_values_text(is_response: bool, p: Seq<u8>) -> Option<Seq<char>> {
    if p.len() < 1 {
        None
    } else if is_response && p.len() >= 2 {
        Some("Attr="@ + player_app_attr_name(p[0]) + " NumValues="@ + dec(p[1] as nat))
    } else {
        Some("Attr="@ + player_app_attr_name(p[0]))
    }
}

fn pdu_list_values(is_response: bool, p: &[u8]) -> (r: Option<String>)
    ensures
        opt_text(r) == list_values_text(is_response, p@),
{
    if p.len() < 1 {
        return None;
    }
    let mut s = String::from_str("Attr=");
    push_str(&mut s, get_player_app_attr_name(p[0]));
    if is_response && p.len() >= 2 {
        push_str(&mut s, " NumValues=");
        push_dec(&mut s, p[1] as u64);
    }
    Some(s)
}

/// GetCurrentPlayerApplicationSettingValue parameters: the returned
/// attribute/value pairs, or the queried attributes.
pub open spec fn current_values_text(is_response: bool, p: Seq<u8>) -> Option<Seq<char>> {
    if p.len() < 1 {
        None
    } else {
        let count = p[0] as nat;
        if is_response {
            let k = complete_pairs(p, count);
            if k == 0 { None } else { Some(joined(pair_texts(p, k), " "@)) }
        } else {
            let avail = (p.len() - 1) as nat;
            let k = if count < avail { count } else { avail };
            Some("Query=["@ + joined(byte_names(ByteNames::PlayerAttr, p, 1, k), ", "@) + "]"@)
        }
    }
}

fn pdu_current_values(is_response: bool, p: &[u8]) -> (r: Option<String>)
    ensures
        opt_text(r) == current_values_text(is_response, p@),
{
    if p.len() < 1 {
        return None;
    }
    let count = p[0] as usize;
    if is_response {
        let avail = (p.len() - 1) / 2;
        let k = if count < avail { count } else { avail };
        if k == 0 {
            return None;
        }
        let mut s = String::new();
        push_pairs(&mut s, p, k);
        assert(s@ =~= joined(pair_texts(p@, k as nat), " "@));
        Some(s)
    } else {
        let avail = p.len() - 1;
        let k = if count < avail { count } else { avail };
        let mut s = String::from_str("Query=[");
        push_byte_names(&mut s, ByteNames::PlayerAttr, p, 1, k);
        push_str(&mut s, "]");
        Some(s)
    }
}

/// SetPlayerApplicationSettingValue parameters (commands only).
pub open spec fn set_values_text(is_response: bool, p: Seq<u8>) -> Option<Seq<char>> {
    if is_response || p.len() < 1 {
        None
    } else {
        let k = complete_pairs(p, p[0] as nat);
        if k == 0 { None } else { Some(joined(pair_texts(p, k), " "@)) }
    }
}

fn pdu_set_values(is_response: bool, p: &[u8]) -> (r: Option<String>)
    ensures
        opt_text(r) == set_values_text(is_response, p@),
{
    if is_response || p.len() < 1 {
        return None;
    }
    let count = p[0] as usize;
    let avail = (p.len() - 1) / 2;
    let k = if count < avail { count } else { avail };
    if k == 0 {
        return None;
    }
    let mut s = String::new();
    push_pairs(&mut s, p, k);
    assert(s@ =~= joined(pair_texts(p@, k as nat), " "@));
    Some(s)
}

/// GetElementAttributes parameters: the attributes of a response, or the
/// track and attribute identifiers of a command.
pub open spec fn element_attributes_text(is_response: bool, p: Seq<u8>) -> Option<Seq<char>> {
    if is_response {
        if p.len() < 1 {
            None
        } else if p[0] == 0 {
            Some("NoAttributes"@)
        } else {
            let items = element_items(p, 1, 0, p[0] as nat);
            if items.len() == 0 { None } else { Some(joined(items, " "@)) }
        }
    } else if p.len() < 9 {
        None
    } else {
        let uid = be64(p, 0);
        let track = if uid == 0 { "CurrentTrack"@ } else { "UID="@ + uid_hex(uid) };
        let num = p[8] as nat;
        if num == 0 {
            Some(track + " AllAttrs"@)
        } else {
            let avail = ((p.len() - 9) / 4) as nat;
            let k = if num < avail { num } else { avail };
            Some(track + " Attrs=["@ + joined(element_attr_names(p, k), ", "@) + "]"@)
        }
    }
}

fn pdu_element_attributes(is_response: bool, p: &[u8]) -> (r: Option<String>)
    ensures
        opt_text(r) == element_attributes_text(is_response, p@),
{
    if is_response {
        if p.len() < 1 {
            return None;
        }
        let count = p[0] as usize;
        if count == 0 {
            return Some(String::from_str("NoAttributes"));
        }
        let items = element_response_items(p, count);
        if items.len() == 0 {
            return None;
        }
        Some(crate::text::join_strings(&items, " "))
    } else {
        if p.len() < 9 {
            return None;
        }
        let uid = read_be64(p, 0);
        let num_attrs = p[8] as usize;
        let mut s = String::new();
        if uid == 0 {
            push_str(&mut s, "CurrentTrack");
        } else {
            push_str(&mut s, "UID=");
            push_str(&mut s, "0x");
            push_hex_upper(&mut s, uid, 16);
        }
        let ghost track = s@;
        if num_attrs == 0 {
            push_str(&mut s, " AllAttrs");
        } else {
            let avail = (p.len() - 9) / 4;
            let k = if num_attrs < avail { num_attrs } else { avail };
            push_str(&mut s, " Attrs=[");
            push_element_attr_names(&mut s, p, k);
            push_str(&mut s, "]");
        }
        assert(s@ =~= element_attributes_text(false, p@).unwrap());
        Some(s)
    }
}

/// `?` for an unknown time (all ones), the duration otherwise.
pub open spec fn time_or_unknown(ms: nat) -> Seq<char> {
    if ms == 0xFFFF_FFFF { "?"@ } else { duration_text(ms) }
}

/// GetPlayStatus parameters.
pub open spec fn play_status_text(p: Seq<u8>) -> Option<Seq<char>> {
    if p.len() >= 9 {
        Some("Status="@ + play_status_name(p[8]) + " Pos="@ + time_or_unknown(be32(p, 4)) + "/"@
            + time_or_unknown(be32(p, 0)))
    } else {
        None
    }
}

fn push_time_or_unknown(s: &mut String, ms: u32)
    ensures
        final(s)@ == old(s)@ + time_or_unknown(ms as nat),
{
    if ms == 0xFFFF_FFFF {
        push_str(s, "?");
    } else {
        let d = format_ms_as_duration(ms);
        push_str(s, d.as_str());
    }
}

fn pdu_play_status(p: &[u8]) -> (r: Option<String>)
    ensures
        opt_text(r) == play_status_text(p@),
{
    if p.len() >= 9 {
        let song_length_ms = read_be32(p, 0);
        let song_pos_ms = read_be32(p, 4);
        let mut s = String::from_str("Status=");
        push_str(&mut s, get_play_status_name(p[8]));
        push_str(&mut s, " Pos=");
        push_time_or_unknown(&mut s, song_pos_ms);
        push_str(&mut s, "/");
        push_time_or_unknown(&mut s, song_length_ms);
        assert(s@ =~= play_status_text(p@).unwrap());
        Some(s)
    } else {
        None
    }
}

/// RegisterNotification parameters.
pub open spec fn register_notification_text(is_response: bool, p: Seq<u8>) -> Option<Seq<char>> {
    if p.len() < 1 {
        None
    } else {
        let name = notification_event_name(p[0]);
        if is_response {
            match notification_response_text(p[0], p.skip(1)) {
                Some(e) => Some("Event="@ + name + " "@ + e),
                None => Some("Event="@ + name),
            }
        } else if p[0] == 0x05 && p.len() >= 5 {
            Some("Event="@ + name + " Interval="@ + dec(be32(p, 1)) + "ms"@)
        } else {
            Some("Event="@ + name)
        }
    }
}

fn pdu_register_notification(is_response: bool, p: &[u8]) -> (r: Option<String>)
    ensures
        opt_text(r) == register_notification_text(is_response, p@),
{
    if p.len() < 1 {
        return None;
    }
    let event_id = p[0];
    let mut s = String::from_str("Event=");
    push_str(&mut s, get_avrcp_notification_event(event_id));
    if is_response {
        let rest = crate::btsnoop::rfcomm::slice_range(p, 1, p.len());
        assert(rest@ =~= p@.skip(1));
        if let Some(e) = decode_notification_response(event_id, rest) {
            push_str(&mut s, " ");
            push_str(&mut s, e.as_str());
        }
    } else if event_id == 0x05 && p.len() >= 5 {
        let interval_ms = read_be32(p, 1);
        push_str(&mut s, " Interval=");
        push_dec(&mut s, interval_ms as u64);
        push_str(&mut s, "ms");
    }
    assert(s@ =~= register_notification_text(is_response, p@).unwrap());
    Some(s)
}


/// `Success` for status 4, `Error` otherwise.
pub open spec fn browse_status(status: nat) -> Seq<char> {
    if status == 0x0004 { "Success"@ } else { "Error"@ }
}

/// `PlayerID=N` from the first two bytes.
pub open spec fn player_id_text(p: Seq<u8>) -> Option<Seq<char>> {
    if p.len() >= 2 { Some("PlayerID="@ + dec(be16(p, 0))) } else { None }
}

/// Parameters of the PDUs that carry a single status or identifier:
/// continuation, absolute volume, addressed and browsed player, folder
/// items, change path, play item and search.
pub open spec fn simple_pdu_text(pdu_id: u8, is_response: bool, p: Seq<u8>) -> Option<Seq<char>> {
    if pdu_id == 0x18 {
        if p.len() < 1 { None } else { Some("Battery="@ + battery_status_name(p[0])) }
    } else if pdu_id == 0x40 || pdu_id == 0x41 {
        if p.len() < 1 { None } else { Some("For="@ + pdu_name(p[0])) }
    } else if pdu_id == 0x50 {
        if p.len() < 1 { None } else { Some(volume_text(p[0])) }
    } else if pdu_id == 0x60 {
        if is_response {
            if p.len() < 1 { None } else { Some("Status="@ + error_status_name(p[0])) }
        } else {
            player_id_text(p)
        }
    } else if pdu_id == 0x70 {
        if is_response {
            if p.len() >= 11 {
                Some("Status="@ + browse_status(be16(p, 0)) + " Items="@ + dec(be32(p, 4))
                    + " Depth="@ + dec(p[10] as nat))
            } else {
                None
            }
        } else {
            player_id_text(p)
        }
    } else if pdu_id == 0x71 {
        if is_response {
            if p.len() >= 6 {
                Some("Status="@ + browse_status(be16(p, 0)) + " NumItems="@ + dec(be16(p, 4)))
            } else {
                None
            }
        } else if p.len() < 1 {
            None
        } else if p.len() >= 9 {
            Some("Scope="@ + folder_scope_name(p[0]) + " Items="@ + dec(be32(p, 1)) + "..="@
                + dec(be32(p, 5)))
        } else {
            Some("Scope="@ + folder_scope_name(p[0]))
        }
    } else if pdu_id == 0x72 {
        if is_response {
            if p.len() >= 6 { Some("NumItems="@ + dec(be32(p, 2))) } else { None }
        } else if p.len() >= 3 {
            Some("Direction="@ + (if p[2] == 0 { "Up"@ } else if p[2] == 1 { "Down"@ } else { "Unknown"@ }))
        } else {
            None
        }
    } else if pdu_id == 0x74 {
        if p.len() < 1 {
            None
        } else if is_response {
            Some("Status="@ + error_status_name(p[0]))
        } else {
            Some("Scope="@ + folder_scope_name(p[0]))
        }
    } else if pdu_id == 0x80 {
        if is_response {
            if p.len() >= 8 { Some("NumItems="@ + dec(be32(p, 4))) } else { None }
        } else if p.len() >= 4 {
            let length = be16(p, 2);
            if p.len() >= 4 + length && length > 0 {
                Some("Query=\""@ + truncated(utf8_lossy(p.subrange(4, 4 + length as int)), 40) + "\""@)
            } else {
                None
            }
        } else {
            None
        }
    } else {
        None
    }
}

fn pdu_player_id(p: &[u8]) -> (r: Option<String>)
    ensures
        opt_text(r) == player_id_text(p@),
{
    if p.len() >= 2 {
        let mut s = String::from_str("PlayerID=");
        push_dec(&mut s, read_be16(p, 0) as u64);
        Some(s)
    } else {
        None
    }
}

fn push_browse_status(s: &mut String, status: u16)
    ensures
        final(s)@ == old(s)@ + browse_status(status as nat),
{
    if status == 0x0004 {
        push_str(s, "Success");
    } else {
        push_str(s, "Error");
    }
}

fn pdu_simple(pdu_id: u8, is_response: bool, p: &[u8]) -> (r: Option<String>)
    ensures
        opt_text(r) == simple_pdu_text(pdu_id, is_response, p@),
{
    let n = p.len();
    if pdu_id == 0x18 {
        if n < 1 {
            return None;
        }
        let mut s = String::from_str("Battery=");
        push_str(&mut s, get_battery_status_name(p[0]));
        Some(s)
    } else if pdu_id == 0x40 || pdu_id == 0x41 {
        if n < 1 {
            return None;
        }
        let mut s = String::from_str("For=");
        push_str(&mut s, get_avrcp_pdu_name(p[0]));
        Some(s)
    } else if pdu_id == 0x50 {
        if n < 1 {
            return None;
        }
        Some(format_volume(p[0]))
    } else if pdu_id == 0x60 {
        if is_response {
            if n < 1 {
                return None;
            }
            let mut s = String::from_str("Status=");
            push_str(&mut s, get_avrcp_error_status(p[0]));
            Some(s)
        } else {
            pdu_player_id(p)
        }
    } else if pdu_id == 0x70 {
        if is_response {
            if n >= 11 {
                let status = read_be16(p, 0);
                let num_items = read_be32(p, 4);
                let mut s = String::from_str("Status=");
                push_browse_status(&mut s, status);
                push_str(&mut s, " Items=");
                push_dec(&mut s, num_items as u64);
                push_str(&mut s, " Depth=");
                push_dec(&mut s, p[10] as u64);
                assert(s@ =~= simple_pdu_text(pdu_id, is_response, p@).unwrap());
                Some(s)
            } else {
                None
            }
        } else {
            pdu_player_id(p)
        }
    } else if pdu_id == 0x71 {
        if is_response {
            if n >= 6 {
                let status = read_be16(p, 0);
                let num_items = read_be16(p, 4);
                let mut s = String::from_str("Status=");
                push_browse_status(&mut s, status);
                push_str(&mut s, " NumItems=");
                push_dec(&mut s, num_items as u64);
                assert(s@ =~= simple_pdu_text(pdu_id, is_response, p@).unwrap());
                Some(s)
            } else {
                None
            }
        } else {
            if n < 1 {
                return None;
            }
            let mut s = String::from_str("Scope=");
            push_str(&mut s, get_folder_scope_name(p[0]));
            if n >= 9 {
                let start = read_be32(p, 1);
                let end = read_be32(p, 5);
                push_str(&mut s, " Items=");
                push_dec(&mut s, start as u64);
                push_str(&mut s, "..=");
                push_dec(&mut s, end as u64);
            }
            assert(s@ =~= simple_pdu_text(pdu_id, is_response, p@).unwrap());
            Some(s)
        }
    } else if pdu_id == 0x72 {
        if is_response {
            if n >= 6 {
                let mut s = String::from_str("NumItems=");
                push_dec(&mut s, read_be32(p, 2) as u64);
                Some(s)
            } else {
                None
            }
        } else if n >= 3 {
            let mut s = String::from_str("Direction=");
            let d: &str = if p[2] == 0 { "Up" } else if p[2] == 1 { "Down" } else { "Unknown" };
            push_str(&mut s, d);
            Some(s)
        } else {
            None
        }
    } else if pdu_id == 0x74 {
        if n < 1 {
            return None;
        }
        if is_response {
            let mut s = String::from_str("Status=");
            push_str(&mut s, get_avrcp_error_status(p[0]));
            Some(s)
        } else {
            let mut s = String::from_str("Scope=");
            push_str(&mut s, get_folder_scope_name(p[0]));
            Some(s)
        }
    } else if pdu_id == 0x80 {
        if is_response {
            if n >= 8 {
                let mut s = String::from_str("NumItems=");
                push_dec(&mut s, read_be32(p, 4) as u64);
                Some(s)
            } else {
                None
            }
        } else if n >= 4 {
            let length = read_be16(p, 2) as usize;
            if n - 4 >= length && length > 0 {
                let query = utf8_lossy_string(crate::btsnoop::rfcomm::slice_range(p, 4, 4 + length));
                let t = truncate_utf8(query.as_str(), 40);
                let mut s = String::from_str("Query=\"");
                push_str(&mut s, t.as_str());
                push_str(&mut s, "\"");
                Some(s)
            } else {
                None
            }
        } else {
            None
        }
    } else {
        None
    }
}

/// The parameter text of an AVRCP vendor-dependent PDU, by PDU id; the
/// command or response reading follows the AV/C type (responses are
/// types 8 and above).
pub open spec fn pdu_params_text(pdu_id: u8, ctype: u8, p: Seq<u8>) -> Option<Seq<char>> {
    let is_response = ctype >= 0x08;
    if pdu_id == 0x10 {
        get_capabilities_text(is_response, p)
    } else if pdu_id == 0x11 {
        list_attrs_text(is_response, p)
    } else if pdu_id == 0x12 {
        list_values_text(is_response, p)
    } else if pdu_id == 0x13 {
        current_values_text(is_response, p)
    } else if pdu_id == 0x14 {
        set_values_text(is_response, p)
    } else if pdu_id == 0x20 {
        element_attributes_text(is_response, p)
    } else if pdu_id == 0x30 {
        play_status_text(p)
    } else if pdu_id == 0x31 {
        register_notification_text(is_response, p)
    } else {
        simple_pdu_text(pdu_id, is_response, p)
    }
}

/// Decodes the parameters of an AVRCP vendor-dependent PDU.
pub fn parse_avrcp_pdu_params(pdu_id: u8, ctype: u8, params: &[u8], _param_len: usize) -> (r:
    Option<String>)
    ensures
        opt_text(r) == pdu_params_text(pdu_id, ctype, params@),
{
    let is_response = ctype >= 0x08;
    match pdu_id {
        0x10 => pdu_get_capabilities(is_response, params),
        0x11 => pdu_list_attrs(is_response, params),
        0x12 => pdu_list_values(is_response, params),
        0x13 => pdu_current_values(is_response, params),
        0x14 => pdu_set_values(is_response, params),
        0x20 => pdu_element_attributes(is_response, params),
        0x30 => pdu_play_status(params),
        0x31 => pdu_register_notification(is_response, params),
        _ => pdu_simple(pdu_id, is_response, params),
    }
}

/// The `/Start`, `/Continue`, `/End` suffix of a fragmented PDU.
pub open spec fn packet_type_suffix(pt: nat) -> Seq<char> {
    if pt == 1 { "/Start"@ } else if pt == 2 { "/Continue"@ } else if pt == 3 { "/End"@ } else { ""@ }
}

/// The Bluetooth SIG company identifier that vendor-dependent AVRCP PDUs use.
pub open spec fn bt_sig_company() -> nat {
    0x00_1958
}

/// The summary of an AV/C frame.
pub open spec fn avc_frame_text(d: Seq<u8>) -> Seq<char> {
    if d.len() < 3 {
        "AV/C Truncated"@
    } else {
        let ctype = d[0] % 16;
        let ctype_s = avc_ctype_name(ctype);
        let subunit_type = (d[1] / 8) % 32;
        let subunit_id = d[1] % 8;
        let opcode = d[2];
        if opcode == 0x7C {
            if d.len() >= 5 {
                "AVRCP "@ + ctype_s + " "@ + avc_opcode_name(opcode) + " "@ + passthrough_name(d[3]
                    % 128) + " "@ + (if d[3] >= 128 { "Released"@ } else { "Pressed"@ })
            } else {
                "AVRCP "@ + ctype_s + " "@ + avc_opcode_name(opcode)
            }
        } else if opcode == 0x00 {
            if d.len() >= 10 {
                let company = d[3] as nat * 65536 + d[4] as nat * 256 + d[5] as nat;
                if company != bt_sig_company() {
                    "AVRCP "@ + ctype_s + " Vendor_Dependent CompanyID=0x"@ + zero_pad(
                        hex_upper(company),
                        6,
                    )
                } else {
                    let pdu_id = d[6];
                    let pt = (d[7] % 4) as nat;
                    let head = "AVRCP "@ + ctype_s + " "@ + pdu_name(pdu_id) + packet_type_suffix(pt);
                    let detail = if pt == 0 || pt == 1 {
                        pdu_params_text(pdu_id, ctype, d.skip(10))
                    } else {
                        None
                    };
                    match detail {
                        Some(t) => head + " "@ + t,
                        None => head,
                    }
                }
            } else {
                "AVRCP "@ + ctype_s + " Vendor_Dependent"@
            }
        } else if opcode == 0x30 {
            "AVRCP "@ + ctype_s + " Unit_Info"@
        } else if opcode == 0x31 {
            "AVRCP "@ + ctype_s + " Subunit_Info "@ + avc_subunit_name(subunit_type) + "["@ + dec(
                subunit_id as nat,
            ) + "]"@
        } else {
            "AVRCP "@ + ctype_s + " "@ + avc_opcode_name(opcode)
        }
    }
}

/// Decodes an AV/C frame.
pub fn parse_avc_frame(data: &[u8]) -> (r: String)
    ensures
        r@ == avc_frame_text(data@),
{
    let n = data.len();
    if n < 3 {
        return String::from_str("AV/C Truncated");
    }
    let b0 = data[0];
    let b1 = data[1];
    let ctype_response = b0 & 0x0F;
    let subunit_type = (b1 >> 3) & 0x1F;
    let subunit_id = b1 & 0x07;
    assert(ctype_response == b0 % 16 && subunit_type == (b1 / 8) % 32 && subunit_id == b1 % 8)
        by (bit_vector)
        requires
            ctype_response == b0 & 0x0F,
            subunit_type == (b1 >> 3) & 0x1F,
            subunit_id == b1 & 0x07,
    ;
    let opcode = data[2];
    let mut s = String::from_str("AVRCP ");
    push_str(&mut s, get_avc_ctype(ctype_response));
    match opcode {
        0x7C => {
            push_str(&mut s, " ");
            push_str(&mut s, get_avc_opcode(opcode));
            if n >= 5 {
                let b3 = data[3];
                let operation_id = b3 & 0x7F;
                assert(operation_id == b3 % 128 && ((b3 & 0x80 != 0) == (b3 >= 128))) by (bit_vector)
                    requires
                        operation_id == b3 & 0x7F,
                ;
                push_str(&mut s, " ");
                push_str(&mut s, get_passthrough_operation(operation_id));
                push_str(&mut s, " ");
                if b3 & 0x80 != 0 {
                    push_str(&mut s, "Released");
                } else {
                    push_str(&mut s, "Pressed");
                }
            }
        },
        0x00 => {
            if n >= 10 {
                let company_id = (data[3] as u32) * 65536 + (data[4] as u32) * 256 + (data[5] as u32);
                if company_id != 0x00_1958 {
                    push_str(&mut s, " Vendor_Dependent CompanyID=0x");
                    push_hex_upper(&mut s, company_id as u64, 6);
                } else {
                    let pdu_id = data[6];
                    let b7 = data[7];
                    let param_type = b7 & 0x03;
                    assert(param_type == b7 % 4) by (bit_vector)
                        requires
                            param_type == b7 & 0x03,
                    ;
                    let param_len = read_be16(data, 8) as usize;
                    let params = crate::btsnoop::rfcomm::slice_range(data, 10, n);
                    assert(params@ =~= data@.skip(10));
                    push_str(&mut s, " ");
                    push_str(&mut s, get_avrcp_pdu_name(pdu_id));
                    let suffix: &str = match param_type {
                        1 => "/Start",
                        2 => "/Continue",
                        3 => "/End",
                        _ => "",
                    };
                    push_str(&mut s, suffix);
                    if param_type == 0 || param_type == 1 {
                        if let Some(d) = parse_avrcp_pdu_params(pdu_id, ctype_response, params, param_len) {
                            push_str(&mut s, " ");
                            push_str(&mut s, d.as_str());
                        }
                    }
                }
            } else {
                push_str(&mut s, " Vendor_Dependent");
            }
        },
        0x30 => {
            push_str(&mut s, " Unit_Info");
        },
        0x31 => {
            push_str(&mut s, " Subunit_Info ");
            push_str(&mut s, get_avc_subunit(subunit_type));
            push_str(&mut s, "[");
            push_dec(&mut s, subunit_id as u64);
            push_str(&mut s, "]");
        },
        _ => {
            push_str(&mut s, " ");
            push_str(&mut s, get_avc_opcode(opcode));
        },
    }
    assert(s@ =~= avc_frame_text(data@));
    s
}

/// The name of an AVCTP packet type.
pub open spec fn avctp_packet_type_name(pt: nat) -> Seq<char> {
    if pt == 0 { "Single"@ } else if pt == 1 { "Start"@ } else if pt == 2 { "Continue"@ } else { "End"@ }
}

/// The summary of an AVCTP packet carried in an L2CAP payload, or `None`
/// when it is too short, has the invalid-profile bit set, or belongs to
/// another profile.
pub open spec fn avctp_summary(p: Seq<u8>) -> Option<Seq<char>> {
    if p.len() < 3 || p[0] % 2 != 0 {
        None
    } else {
        let pid = be16(p, 1);
        if pid != AVRCP_PID as nat && pid != AVRCP_TARGET_PID as nat {
            None
        } else {
            let header = p[0];
            let pt = ((header / 4) % 4) as nat;
            let head = "AVCTP/"@ + avctp_packet_type_name(pt) + " TL="@ + dec((header / 16) as nat)
                + " "@ + (if (header / 2) % 2 == 0 { "Cmd"@ } else { "Rsp"@ });
            if p.len() >= 6 && (pt == 0 || pt == 1) {
                Some(head + " "@ + avc_frame_text(p.skip(3)))
            } else {
                Some(head)
            }
        }
    }
}

/// Decodes an AVCTP packet carrying AVRCP.
pub fn try_parse_avctp(l2cap_payload: &[u8]) -> (r: Option<String>)
    ensures
        opt_text(r) == avctp_summary(l2cap_payload@),
{
    let p = l2cap_payload;
    let n = p.len();
    if n < 3 {
        return None;
    }
    let header = p[0];
    let transaction_label = header >> 4;
    let packet_type = (header >> 2) & 0x03;
    let cr_bit = (header >> 1) & 0x01;
    let ipid = header & 0x01;
    assert(transaction_label == header / 16 && packet_type == (header / 4) % 4 && cr_bit == (header
        / 2) % 2 && ipid == header % 2) by (bit_vector)
        requires
            transaction_label == header >> 4,
            packet_type == (header >> 2) & 0x03,
            cr_bit == (header >> 1) & 0x01,
            ipid == header & 0x01,
    ;
    if ipid != 0 {
        return None;
    }
    let pid = read_be16(p, 1);
    if pid != AVRCP_PID && pid != AVRCP_TARGET_PID {
        return None;
    }
    let pt_name: &str = match packet_type {
        0 => "Single",
        1 => "Start",
        2 => "Continue",
        _ => "End",
    };
    let mut s = String::from_str("AVCTP/");
    push_str(&mut s, pt_name);
    push_str(&mut s, " TL=");
    push_dec(&mut s, transaction_label as u64);
    push_str(&mut s, " ");
    if cr_bit == 0 {
        push_str(&mut s, "Cmd");
    } else {
        push_str(&mut s, "Rsp");
    }
    if n >= 6 && (packet_type == 0 || packet_type == 1) {
        let rest = crate::btsnoop::rfcomm::slice_range(p, 3, n);
        assert(rest@ =~= p@.skip(3));
        let avc = parse_avc_frame(rest);
        push_str(&mut s, " ");
        push_str(&mut s, avc.as_str());
    }
    assert(s@ =~= avctp_summary(p@).unwrap());
    Some(s)
}

} // verus!
