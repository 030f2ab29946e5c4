//! HFP (Hands-Free Profile) AT command decoding.

use crate::chars::{
    chars_range, eq_lit, find_either, first_of, has_prefix, has_suffix, push_chars, starts_with_lit,
    str_chars, string_from_chars, strip_prefix_lit, strip_suffix_lit,
};
use crate::text::{push_str, str_from_utf8, str_trim, trimmed};
use vstd::prelude::*;
use vstd::string::*;
use vstd::utf8::{decode_utf8, valid_utf8};

verus! {

/// The description of an unsolicited result code name, when it is known.
pub open spec fn unsolicited_desc(name: Seq<char>) -> Seq<char> {
    if name == "BRSF"@ { "Supported Features"@ }
    else if name == "CIND"@ { "Indicator Status"@ }
    else if name == "CIEV"@ { "Indicator Event"@ }
    else if name == "CHLD"@ { "Call Hold Options"@ }
    else if name == "COPS"@ { "Operator Name"@ }
    else if name == "CLCC"@ { "Call List"@ }
    else if name == "CLIP"@ { "Calling Line ID"@ }
    else if name == "CCWA"@ { "Call Waiting"@ }
    else if name == "BVRA"@ { "Voice Recognition"@ }
    else if name == "VGS"@ { "Speaker Gain"@ }
    else if name == "VGM"@ { "Microphone Gain"@ }
    else if name == "BSIR"@ { "In-band Ring Tone"@ }
    else if name == "BTRH"@ { "Response and Hold"@ }
    else if name == "BINP"@ { "Phone Number"@ }
    else if name == "BCS"@ { "Codec Selection"@ }
    else if name == "CNUM"@ { "Subscriber Number"@ }
    else if name == "CME ERROR"@ { "Extended Error"@ }
    else { name }
}

/// The annotated name of an AT command, when it is known.
pub open spec fn at_command_name(cmd: Seq<char>) -> Seq<char> {
    if cmd == "+BRSF"@ { "+BRSF (Supported Features)"@ }
    else if cmd == "+CIND"@ { "+CIND (Indicators)"@ }
    else if cmd == "+CMER"@ { "+CMER (Event Reporting)"@ }
    else if cmd == "+CHLD"@ { "+CHLD (Call Hold)"@ }
    else if cmd == "+CHUP"@ { "+CHUP (Hang Up)"@ }
    else if cmd == "+CLCC"@ { "+CLCC (Call List)"@ }
    else if cmd == "+COPS"@ { "+COPS (Operator)"@ }
    else if cmd == "+CLIP"@ { "+CLIP (Caller ID)"@ }
    else if cmd == "+CCWA"@ { "+CCWA (Call Waiting)"@ }
    else if cmd == "+CMEE"@ { "+CMEE (Extended Errors)"@ }
    else if cmd == "+BVRA"@ { "+BVRA (Voice Recognition)"@ }
    else if cmd == "+NREC"@ { "+NREC (Noise Reduction)"@ }
    else if cmd == "+VGS"@ { "+VGS (Speaker Gain)"@ }
    else if cmd == "+VGM"@ { "+VGM (Mic Gain)"@ }
    else if cmd == "+BINP"@ { "+BINP (Phone Number)"@ }
    else if cmd == "+BLDN"@ { "+BLDN (Last Number Redial)"@ }
    else if cmd == "+BTRH"@ { "+BTRH (Response Hold)"@ }
    else if cmd == "+CNUM"@ { "+CNUM (Subscriber Number)"@ }
    else if cmd == "+BIA"@ { "+BIA (Indicator Activation)"@ }
    else if cmd == "+BAC"@ { "+BAC (Available Codecs)"@ }
    else if cmd == "+BCC"@ { "+BCC (Codec Connection)"@ }
    else if cmd == "+BCS"@ { "+BCS (Codec Selection)"@ }
    else if cmd == "+BIND"@ { "+BIND (HF Indicators)"@ }
    else if cmd == "+BIEV"@ { "+BIEV (HF Indicator Value)"@ }
    else if cmd == "A"@ { "A (Answer)"@ }
    else if cmd == "D"@ { "D (Dial)"@ }
    else if cmd == "H"@ { "H (Hang Up)"@ }
    else { cmd }
}

/// Text for an unsolicited result code (after its `+`): name and parameters,
/// split at the first `:` or `=`.
pub open spec fn unsolicited_text(code: Seq<char>) -> Seq<char> {
    match first_of(code, ':', '=') {
        Some(i) => "+"@ + unsolicited_desc(code.take(i)) + ": "@ + code.skip(i + 1),
        None => "+"@ + unsolicited_desc(code),
    }
}

/// Text for an AT command (after its `AT`): test (`=?`), read (`?`), set
/// (`=value`) or action form.
pub open spec fn at_command_text(cmd: Seq<char>) -> Seq<char> {
    if has_suffix(cmd, "=?"@) {
        "AT"@ + at_command_name(cmd.take(cmd.len() - "=?"@.len())) + "=? (Test)"@
    } else if has_suffix(cmd, "?"@) {
        "AT"@ + at_command_name(cmd.take(cmd.len() - "?"@.len())) + "? (Read)"@
    } else {
        match first_of(cmd, '=', '=') {
            Some(i) => "AT"@ + at_command_name(cmd.take(i)) + cmd.skip(i),
            None => "AT"@ + at_command_name(cmd),
        }
    }
}

/// Text for a complete HFP command or response.
pub open spec fn hfp_command_text(cmd: Seq<char>) -> Seq<char> {
    if cmd == "OK"@ {
        "OK"@
    } else if cmd == "ERROR"@ {
        "ERROR"@
    } else if has_prefix(cmd, "RING"@) {
        "RING (Incoming call)"@
    } else if has_prefix(cmd, "+"@) {
        unsolicited_text(cmd.skip("+"@.len() as int))
    } else if has_prefix(cmd, "AT"@) {
        at_command_text(cmd.skip("AT"@.len() as int))
    } else {
        cmd
    }
}

/// The trimmed text looks like HFP traffic.
pub open spec fn looks_like_hfp(t: Seq<char>) -> bool {
    ||| has_prefix(t, "AT"@)
    ||| has_prefix(t, "+"@)
    ||| t == "OK"@
    ||| t == "ERROR"@
    ||| has_prefix(t, "RING"@)
}

/// The summary of an RFCOMM payload read as HFP AT traffic: the payload must
/// be UTF-8 whose trimmed text is non-empty and looks like HFP.
pub open spec fn hfp_summary(payload: Seq<u8>) -> Option<Seq<char>> {
    if !valid_utf8(payload) {
        None
    } else {
        let t = trimmed(decode_utf8(payload));
        if t.len() > 0 && looks_like_hfp(t) {
            Some("HFP "@ + hfp_command_text(t))
        } else {
            None
        }
    }
}

/// Try to parse an RFCOMM payload as HFP AT commands.
pub fn try_parse_hfp_at_command(payload: &[u8]) -> (r: Option<String>)
    ensures
        r matches Some(s) ==> hfp_summary(payload@) == Some(s@),
        r is None ==> hfp_summary(payload@) is None,
{
    let text = str_from_utf8(payload)?;
    let text = str_trim(text);
    let t = str_chars(text);
    if t.len() == 0 {
        return None;
    }
    let t = t.as_slice();
    if starts_with_lit(t, "AT") || starts_with_lit(t, "+") || eq_lit(t, "OK") || eq_lit(t, "ERROR")
        || starts_with_lit(t, "RING") {
        let mut out = String::from_str("HFP ");
        let info = parse_hfp_command(t);
        push_str(&mut out, info.as_str());
        Some(out)
    } else {
        None
    }
}

/// Text for a complete HFP command or response.
pub fn parse_hfp_command(cmd: &[char]) -> (r: String)
    ensures
        r@ == hfp_command_text(cmd@),
{
    if eq_lit(cmd, "OK") {
        return String::from_str("OK");
    }
    if eq_lit(cmd, "ERROR") {
        return String::from_str("ERROR");
    }
    if starts_with_lit(cmd, "RING") {
        return String::from_str("RING (Incoming call)");
    }
    if let Some(rest) = strip_prefix_lit(cmd, "+") {
        return parse_hfp_unsolicited(rest.as_slice());
    }
    if let Some(rest) = strip_prefix_lit(cmd, "AT") {
        return parse_hfp_at_command_str(rest.as_slice());
    }
    string_from_chars(cmd)
}

/// Appends the description of an unsolicited result code name.
fn push_unsolicited_desc(out: &mut String, name: &[char])
    ensures
        final(out)@ == old(out)@ + unsolicited_desc(name@),
{
    let d: &str = if eq_lit(name, "BRSF") { "Supported Features" }
    else if eq_lit(name, "CIND") { "Indicator Status" }
    else if eq_lit(name, "CIEV") { "Indicator Event" }
    else if eq_lit(name, "CHLD") { "Call Hold Options" }
    else if eq_lit(name, "COPS") { "Operator Name" }
    else if eq_lit(name, "CLCC") { "Call List" }
    else if eq_lit(name, "CLIP") { "Calling Line ID" }
    else if eq_lit(name, "CCWA") { "Call Waiting" }
    else if eq_lit(name, "BVRA") { "Voice Recognition" }
    else if eq_lit(name, "VGS") { "Speaker Gain" }
    else if eq_lit(name, "VGM") { "Microphone Gain" }
    else if eq_lit(name, "BSIR") { "In-band Ring Tone" }
    else if eq_lit(name, "BTRH") { "Response and Hold" }
    else if eq_lit(name, "BINP") { "Phone Number" }
    else if eq_lit(name, "BCS") { "Codec Selection" }
    else if eq_lit(name, "CNUM") { "Subscriber Number" }
    else if eq_lit(name, "CME ERROR") { "Extended Error" }
    else {
        push_chars(out, name);
        return;
    };
    push_str(out, d);
}

/// Text for an unsolicited result code (the part after `+`).
pub fn parse_hfp_unsolicited(code: &[char]) -> (r: String)
    ensures
        r@ == unsolicited_text(code@),
{
    let mut out = String::from_str("+");
    let n = code.len();
    match find_either(code, ':', '=') {
        Some(idx) => {
            assert(idx < n);
            let name = chars_range(code, 0, idx);
            let params = chars_range(code, idx + 1, code.len());
            push_unsolicited_desc(&mut out, name.as_slice());
            push_str(&mut out, ": ");
            push_chars(&mut out, params.as_slice());
            assert(name@ =~= code@.take(idx as int));
            assert(params@ =~= code@.skip(idx + 1));
        },
        None => {
            push_unsolicited_desc(&mut out, code);
        },
    }
    out
}

/// Appends the annotated name of an AT command.
fn push_at_command_name(out: &mut String, cmd: &[char])
    ensures
        final(out)@ == old(out)@ + at_command_name(cmd@),
{
    let d: &str = if eq_lit(cmd, "+BRSF") { "+BRSF (Supported Features)" }
    else if eq_lit(cmd, "+CIND") { "+CIND (Indicators)" }
    else if eq_lit(cmd, "+CMER") { "+CMER (Event Reporting)" }
    else if eq_lit(cmd, "+CHLD") { "+CHLD (Call Hold)" }
    else if eq_lit(cmd, "+CHUP") { "+CHUP (Hang Up)" }
    else if eq_lit(cmd, "+CLCC") { "+CLCC (Call List)" }
    else if eq_lit(cmd, "+COPS") { "+COPS (Operator)" }
    else if eq_lit(cmd, "+CLIP") { "+CLIP (Caller ID)" }
    else if eq_lit(cmd, "+CCWA") { "+CCWA (Call Waiting)" }
    else if eq_lit(cmd, "+CMEE") { "+CMEE (Extended Errors)" }
    else if eq_lit(cmd, "+BVRA") { "+BVRA (Voice Recognition)" }
    else if eq_lit(cmd, "+NREC") { "+NREC (Noise Reduction)" }
    else if eq_lit(cmd, "+VGS") { "+VGS (Speaker Gain)" }
    else if eq_lit(cmd, "+VGM") { "+VGM (Mic Gain)" }
    else if eq_lit(cmd, "+BINP") { "+BINP (Phone Number)" }
    else if eq_lit(cmd, "+BLDN") { "+BLDN (Last Number Redial)" }
    else if eq_lit(cmd, "+BTRH") { "+BTRH (Response Hold)" }
    else if eq_lit(cmd, "+CNUM") { "+CNUM (Subscriber Number)" }
    else if eq_lit(cmd, "+BIA") { "+BIA (Indicator Activation)" }
    else if eq_lit(cmd, "+BAC") { "+BAC (Available Codecs)" }
    else if eq_lit(cmd, "+BCC") { "+BCC (Codec Connection)" }
    else if eq_lit(cmd, "+BCS") { "+BCS (Codec Selection)" }
    else if eq_lit(cmd, "+BIND") { "+BIND (HF Indicators)" }
    else if eq_lit(cmd, "+BIEV") { "+BIEV (HF Indicator Value)" }
    else if eq_lit(cmd, "A") { "A (Answer)" }
    else if eq_lit(cmd, "D") { "D (Dial)" }
    else if eq_lit(cmd, "H") { "H (Hang Up)" }
    else {
        push_chars(out, cmd);
        return;
    };
    push_str(out, d);
}

/// The annotated name of an AT command, or the command itself when unknown.
pub fn get_at_command_name(cmd: &[char]) -> (r: String)
    ensures
        r@ == at_command_name(cmd@),
{
    let mut out = String::new();
    push_at_command_name(&mut out, cmd);
    assert(out@ =~= at_command_name(cmd@));
    out
}

/// Text for an AT command (the part after `AT`).
pub fn parse_hfp_at_command_str(cmd: &[char]) -> (r: String)
    ensures
        r@ == at_command_text(cmd@),
{
    let mut out = String::from_str("AT");
    if let Some(name) = strip_suffix_lit(cmd, "=?") {
        push_at_command_name(&mut out, name.as_slice());
        push_str(&mut out, "=? (Test)");
        return out;
    }
    if let Some(name) = strip_suffix_lit(cmd, "?") {
        push_at_command_name(&mut out, name.as_slice());
        push_str(&mut out, "? (Read)");
        return out;
    }
    match find_either(cmd, '=', '=') {
        Some(idx) => {
            let name = chars_range(cmd, 0, idx);
            let value = chars_range(cmd, idx, cmd.len());
            push_at_command_name(&mut out, name.as_slice());
            push_chars(&mut out, value.as_slice());
            assert(name@ =~= cmd@.take(idx as int));
            assert(value@ =~= cmd@.skip(idx as int));
        },
        None => {
            push_at_command_name(&mut out, cmd);
        },
    }
    out
}

} // verus!
