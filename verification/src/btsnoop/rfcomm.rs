//! RFCOMM frame decoding.

use crate::btsnoop::hfp::{hfp_summary, try_parse_hfp_at_command};
use crate::text::{dec, push_dec, push_str};
use vstd::prelude::*;
use vstd::string::*;

verus! {

/// Set asynchronous balanced mode (connect).
pub const RFCOMM_SABM: u8 = 0x2F;

/// Unnumbered acknowledgement.
pub const RFCOMM_UA: u8 = 0x63;

/// Disconnected mode (rejected).
pub const RFCOMM_DM: u8 = 0x0F;

/// Disconnect.
pub const RFCOMM_DISC: u8 = 0x43;

/// Unnumbered information with header check (data).
pub const RFCOMM_UIH: u8 = 0xEF;

/// The frame type of a control byte: the byte with its poll/final bit cleared.
pub open spec fn frame_type_of(control: u8) -> u8 {
    control & 0xEF
}

/// The name of a frame type.
pub open spec fn frame_type_name(frame_type: u8) -> Seq<char> {
    if frame_type == RFCOMM_SABM { "SABM"@ }
    else if frame_type == RFCOMM_UA { "UA"@ }
    else if frame_type == RFCOMM_DM { "DM"@ }
    else if frame_type == RFCOMM_DISC { "DISC"@ }
    else if frame_type == RFCOMM_UIH { "UIH"@ }
    else { "Unknown"@ }
}

/// The name of a multiplexer control command, by its type byte.
pub open spec fn mux_cmd_name(cmd_type: u8) -> Seq<char> {
    let cmd = cmd_type / 4;
    if cmd == 0x08 { "PN"@ }
    else if cmd == 0x14 { "PSC"@ }
    else if cmd == 0x04 { "CLD"@ }
    else if cmd == 0x18 { "Test"@ }
    else if cmd == 0x02 { "FCoff"@ }
    else if cmd == 0x0A { "FCon"@ }
    else if cmd == 0x0E { "MSC"@ }
    else if cmd == 0x12 { "NSC"@ }
    else if cmd == 0x11 { "RPN"@ }
    else if cmd == 0x09 { "RLS"@ }
    else if cmd == 0x20 { "SNC"@ }
    else { "Unknown_MuxCmd"@ }
}

/// The length field of a frame and the offset of its information field:
/// one length byte when its extension bit is set, two otherwise.
pub open spec fn frame_length(p: Seq<u8>) -> (nat, int) {
    if p[2] % 2 == 1 {
        ((p[2] / 2) as nat, 3)
    } else {
        ((p[2] / 2) as nat + (p[3] as nat) * 128, 4)
    }
}

/// The end (exclusive) of the information field: the declared length,
/// capped before the trailing frame check byte.
pub open spec fn payload_end(p: Seq<u8>, offset: int, length: nat) -> int {
    let cap = p.len() - 1;
    if offset + length < cap { offset + length } else { cap }
}

/// The information text of a frame on a data channel (`dlci != 0`) that is
/// not an HFP data frame.
pub open spec fn channel_info(dlci: nat, dir: Seq<char>, ft: u8, length: nat) -> Seq<char> {
    if ft == RFCOMM_UIH && length > 0 {
        "DLCI="@ + dec(dlci) + " "@ + dir + " Len="@ + dec(length)
    } else if ft == RFCOMM_SABM {
        "DLCI="@ + dec(dlci) + " Connect"@
    } else if ft == RFCOMM_UA {
        "DLCI="@ + dec(dlci) + " Ack"@
    } else if ft == RFCOMM_DISC {
        "DLCI="@ + dec(dlci) + " Disconnect"@
    } else if ft == RFCOMM_DM {
        "DLCI="@ + dec(dlci) + " Rejected"@
    } else {
        "DLCI="@ + dec(dlci)
    }
}

/// The HFP text carried by a data frame, when its payload is HFP traffic.
pub open spec fn frame_hfp(p: Seq<u8>) -> Option<Seq<char>> {
    let (length, offset) = frame_length(p);
    let control = p[1];
    let data_start = if (control / 16) % 2 == 1 { offset + 1 } else { offset };
    let end = payload_end(p, offset, length);
    if frame_type_of(control) == RFCOMM_UIH && length > 0 && data_start < end {
        hfp_summary(p.subrange(data_start, end))
    } else {
        None
    }
}

/// The one-line summary of an RFCOMM frame, or `None` when the bytes are not
/// an RFCOMM frame (too short, address EA bit clear, or truncated length).
pub open spec fn rfcomm_summary(p: Seq<u8>) -> Option<Seq<char>> {
    if p.len() < 3 || p[0] % 2 != 1 || (p[2] % 2 != 1 && p.len() < 4) {
        None
    } else {
        let address = p[0];
        let control = p[1];
        let dlci = (address / 4) as nat;
        let ft = frame_type_of(control);
        let (length, offset) = frame_length(p);
        if dlci == 0 {
            let info = if ft == RFCOMM_UIH && p.len() > offset {
                let m = p[offset];
                "MuxCtrl "@ + mux_cmd_name(m) + " "@ + (if (m / 2) % 2 == 1 {
                    "Cmd"@
                } else {
                    "Rsp"@
                })
            } else {
                "DLCI=0"@
            };
            Some("RFCOMM "@ + frame_type_name(ft) + " "@ + info)
        } else {
            let dir = if (address / 2) % 2 == 1 { "Initiator"@ } else { "Responder"@ };
            match frame_hfp(p) {
                Some(h) => Some("RFCOMM UIH DLCI="@ + dec(dlci) + " "@ + dir + " "@ + h),
                None => Some(
                    "RFCOMM "@ + frame_type_name(ft) + " "@ + channel_info(dlci, dir, ft, length),
                ),
            }
        }
    }
}

/// The name of the frame type of a control byte.
pub fn get_rfcomm_frame_type(control: u8) -> (r: &'static str)
    ensures
        r@ == frame_type_name(frame_type_of(control)),
{
    let frame_type = control & 0xEF;
    if frame_type == RFCOMM_SABM {
        "SABM"
    } else if frame_type == RFCOMM_UA {
        "UA"
    } else if frame_type == RFCOMM_DM {
        "DM"
    } else if frame_type == RFCOMM_DISC {
        "DISC"
    } else if frame_type == RFCOMM_UIH {
        "UIH"
    } else {
        "Unknown"
    }
}

/// The name of a multiplexer control command, by its type byte.
pub fn get_rfcomm_mux_cmd(cmd_type: u8) -> (r: &'static str)
    ensures
        r@ == mux_cmd_name(cmd_type),
{
    let cmd = cmd_type >> 2;
    assert(cmd == cmd_type / 4) by (bit_vector)
        requires
            cmd == cmd_type >> 2,
    ;
    match cmd {
        0x08 => "PN",
        0x14 => "PSC",
        0x04 => "CLD",
        0x18 => "Test",
        0x02 => "FCoff",
        0x0A => "FCon",
        0x0E => "MSC",
        0x12 => "NSC",
        0x11 => "RPN",
        0x09 => "RLS",
        0x20 => "SNC",
        _ => "Unknown_MuxCmd",
    }
}

/// Decode an RFCOMM frame carried in an L2CAP payload.
pub fn try_parse_rfcomm(l2cap_payload: &[u8]) -> (r: Option<String>)
    ensures
        r matches Some(s) ==> rfcomm_summary(l2cap_payload@) == Some(s@),
        r is None ==> rfcomm_summary(l2cap_payload@) is None,
{
    let p = l2cap_payload;
    if p.len() < 3 {
        return None;
    }
    let address = p[0];
    let control = p[1];
    if address & 0x01 != 1 {
        assert(address & 0x01 == address % 2) by (bit_vector);
        return None;
    }
    assert(address & 0x01 == address % 2) by (bit_vector);
    let dlci = address >> 2;
    let cr_bit = (address >> 1) & 0x01;
    assert(dlci == address / 4 && cr_bit == (address / 2) % 2) by (bit_vector)
        requires
            dlci == address >> 2,
            cr_bit == (address >> 1) & 0x01,
    ;
    let frame_type = control & 0xEF;
    let frame_name = get_rfcomm_frame_type(control);
    let b2 = p[2];
    assert(b2 & 0x01 == b2 % 2 && b2 >> 1 == b2 / 2) by (bit_vector);
    let (length, data_offset): (u16, usize) = if b2 & 0x01 == 1 {
        ((b2 >> 1) as u16, 3)
    } else if p.len() >= 4 {
        let b3 = p[3];
        let len = ((b2 >> 1) as u16) | ((b3 as u16) << 7);
        assert(len == (b2 / 2) as u16 + (b3 as u16) * 128) by (bit_vector)
            requires
                len == ((b2 >> 1) as u16) | ((b3 as u16) << 7),
        ;
        (len, 4)
    } else {
        return None;
    };
    let ghost (glen, goff) = frame_length(p@);
    assert(length as nat == glen && data_offset as int == goff);

    let mut out = String::from_str("RFCOMM ");
    if dlci == 0 {
        push_str(&mut out, frame_name);
        push_str(&mut out, " ");
        if frame_type == RFCOMM_UIH && p.len() > data_offset {
            let mux_type = p[data_offset];
            push_str(&mut out, "MuxCtrl ");
            push_str(&mut out, get_rfcomm_mux_cmd(mux_type));
            push_str(&mut out, " ");
            assert(mux_type & 0x02 != 0 <==> (mux_type / 2) % 2 == 1) by (bit_vector);
            if mux_type & 0x02 != 0 {
                push_str(&mut out, "Cmd");
            } else {
                push_str(&mut out, "Rsp");
            }
        } else {
            push_str(&mut out, "DLCI=0");
        }
        return Some(out);
    }
    let direction: &str = if cr_bit == 1 { "Initiator" } else { "Responder" };
    let ghost dir_spec = if (address / 2) % 2 == 1 { "Initiator"@ } else { "Responder"@ };
    assert(direction@ == dir_spec);
    if frame_type == RFCOMM_UIH && length > 0 {
        let pf_bit = (control >> 4) & 0x01;
        assert(pf_bit == (control / 16) % 2) by (bit_vector)
            requires
                pf_bit == (control >> 4) & 0x01,
        ;
        let actual_data_offset = if pf_bit == 1 { data_offset + 1 } else { data_offset };
        let cap = p.len() - 1;
        let end = if data_offset + (length as usize) < cap { data_offset + (length as usize) } else { cap };
        assert(end as int == payload_end(p@, goff, glen));
        if actual_data_offset < end {
            let payload = slice_range(p, actual_data_offset, end);
            if let Some(hfp_info) = try_parse_hfp_at_command(payload) {
                let mut s = String::from_str("RFCOMM UIH DLCI=");
                push_dec(&mut s, dlci as u64);
                push_str(&mut s, " ");
                push_str(&mut s, direction);
                push_str(&mut s, " ");
                push_str(&mut s, hfp_info.as_str());
                return Some(s);
            }
            assert(frame_hfp(p@) is None);
        }
        assert(frame_hfp(p@) is None);
    }
    assert(frame_hfp(p@) is None);
    push_str(&mut out, frame_name);
    push_str(&mut out, " ");
    let ghost head = out@;
    push_str(&mut out, "DLCI=");
    push_dec(&mut out, dlci as u64);
    if frame_type == RFCOMM_UIH && length > 0 {
        push_str(&mut out, " ");
        push_str(&mut out, direction);
        push_str(&mut out, " Len=");
        push_dec(&mut out, length as u64);
    } else if frame_type == RFCOMM_SABM {
        push_str(&mut out, " Connect");
    } else if frame_type == RFCOMM_UA {
        push_str(&mut out, " Ack");
    } else if frame_type == RFCOMM_DISC {
        push_str(&mut out, " Disconnect");
    } else if frame_type == RFCOMM_DM {
        push_str(&mut out, " Rejected");
    }
    assert(out@ =~= head + channel_info(dlci as nat, dir_spec, frame_type, glen));
    Some(out)
}

/// The bytes `v[from..to]`.
pub fn slice_range(v: &[u8], from: usize, to: usize) -> (r: &[u8])
    requires
        from <= to <= v@.len(),
    ensures
        r@ == v@.subrange(from as int, to as int),
{
    vstd::slice::slice_subrange(v, from, to)
}

} // verus!
