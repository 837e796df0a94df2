//! Routing of a client request: from the parsed JSON to the engine request
//! and, once the engine has answered, to the HTTP reply.
use crate::bitmask::CodecStore;
use crate::error::{validation_error, RZError, RZErrorView};
use crate::processor::get_prop_room_day::{decode_get_prop_room_day_response, room_day_reply};
use crate::processor::get_segments::{decode_get_segments_response, get_segments_reply};
use crate::processor::prop_room_date_list::{date_list_reply, decode_prop_room_date_list_response};
use crate::processor::prop_room_list::{decode_prop_room_list_response, prop_room_list_reply};
use crate::processor::search_avail::{decode_search_avail_response, search_avail_reply};
use crate::processor::search_prop::{decode_search_prop_response, search_prop_reply};
use crate::helper::{CHRONO_MAX_YEAR, UNIX_EPOCH_YEAR};
use crate::protocol::response::{
    boolean_reply, decode_boolean_response, decode_scalar_u8_response, decode_simple_response,
    scalar_u8_reply, simple_reply,
};
use crate::protocol::{error_body, error_message_text, error_reply, error_response, HttpReply, HttpReplyView, HTTP_BAD_REQUEST};
use crate::request::commands::{
    build_dec_room_avl, build_del_prop, build_del_prop_day, build_del_prop_room, build_del_room_day, build_del_segment, build_get_prop_room_day, build_get_segments, build_inc_room_avl, build_prop_exist, build_prop_room_date_list, build_prop_room_exist, build_prop_room_list, build_search_avail, build_search_prop, build_set_prop, build_set_room_avl, build_set_room_pkg, dec_room_avl_request, del_prop_day_request, del_prop_request, del_prop_room_request, del_room_day_request, del_segment_request, encoded, get_prop_room_day_request, get_segments_request, inc_room_avl_request, prop_exist_request, prop_room_date_list_request, prop_room_exist_request, prop_room_list_request, search_avail_request, search_prop_request, set_prop_request, set_room_avl_request, set_room_pkg_request, text_of,
};
use crate::request::json::{get_str, json_get, JsonValue};
use crate::text::same_text;
use vstd::prelude::*;
use vstd::string::StringSliceAdditionalSpecFns;
use vstd::utf8::encode_utf8;

verus! {

/// How the engine's answer to a command is turned into the HTTP reply.
#[derive(Clone, Copy, Debug, PartialEq, Eq, Structural)]
pub enum ReplyKind {
    /// `{"status":"success"}`.
    Simple,
    /// `{"status":"success","exists":<bool>}`.
    Exists,
    /// `{"status":"success","availability":<n>}`.
    Availability,
    /// The property ids of SEARCHPROP.
    PropertyList,
    /// The properties and days of SEARCHAVAIL.
    Availabilities,
    /// The room-day record of GETPROPROOMDAY.
    RoomDay,
    /// The dates of PROPROOMDATELIST.
    DateList,
    /// The room types of PROPROOMLIST.
    RoomTypes,
    /// The segments of GETSEGMENTS.
    Segments,
}

/// A request ready for the engine.
#[derive(Debug)]
pub struct Outgoing {
    /// The segment that routes the request.
    pub segment: String,
    /// The request changes data.
    pub is_write: bool,
    /// The binary request payload.
    pub payload: Vec<u8>,
    /// How the answer is decoded.
    pub reply: ReplyKind,
}

/// Abstract view of [`Outgoing`].
pub struct OutgoingView {
    pub segment: Seq<char>,
    pub is_write: bool,
    pub payload: Seq<u8>,
    pub reply: ReplyKind,
}

impl View for Outgoing {
    type V = OutgoingView;

    open spec fn view(&self) -> OutgoingView {
        OutgoingView {
            segment: self.segment@,
            is_write: self.is_write,
            payload: self.payload@,
            reply: self.reply,
        }
    }
}

/// The encoding of command `cmd` for body `b`, whether it writes and how
/// its answer is read; `None` for an unknown command.
pub open spec fn command_plan(cmd: Seq<char>, b: JsonValue) -> Option<(Result<Seq<u8>, Seq<char>>, bool, ReplyKind)> {
    if cmd == "SETPROP"@ {
        Some((set_prop_request(b), true, ReplyKind::Simple))
    } else if cmd == "PROPEXIST"@ {
        Some((prop_exist_request(b), false, ReplyKind::Exists))
    } else if cmd == "SEARCHPROP"@ {
        Some((search_prop_request(b), false, ReplyKind::PropertyList))
    } else if cmd == "SETROOMPKG"@ {
        Some((set_room_pkg_request(b), true, ReplyKind::Simple))
    } else if cmd == "SETROOMAVL"@ {
        Some((set_room_avl_request(b), true, ReplyKind::Availability))
    } else if cmd == "INCROOMAVL"@ {
        Some((inc_room_avl_request(b), true, ReplyKind::Availability))
    } else if cmd == "DECROOMAVL"@ {
        Some((dec_room_avl_request(b), true, ReplyKind::Availability))
    } else if cmd == "DELROOMDAY"@ {
        Some((del_room_day_request(b), true, ReplyKind::Simple))
    } else if cmd == "PROPROOMEXIST"@ {
        Some((prop_room_exist_request(b), false, ReplyKind::Exists))
    } else if cmd == "GETPROPROOMDAY"@ {
        Some((get_prop_room_day_request(b), false, ReplyKind::RoomDay))
    } else if cmd == "PROPROOMLIST"@ {
        Some((prop_room_list_request(b), false, ReplyKind::RoomTypes))
    } else if cmd == "PROPROOMDATELIST"@ {
        Some((prop_room_date_list_request(b), false, ReplyKind::DateList))
    } else if cmd == "DELPROPROOM"@ {
        Some((del_prop_room_request(b), true, ReplyKind::Simple))
    } else if cmd == "SEARCHAVAIL"@ {
        Some((search_avail_request(b), false, ReplyKind::Availabilities))
    } else if cmd == "DELPROP"@ {
        Some((del_prop_request(b), true, ReplyKind::Simple))
    } else if cmd == "DELSEGMENT"@ {
        Some((del_segment_request(b), true, ReplyKind::Simple))
    } else if cmd == "DELPROPDAY"@ {
        Some((del_prop_day_request(b), true, ReplyKind::Simple))
    } else if cmd == "GETSEGMENTS"@ {
        Some((get_segments_request(b), false, ReplyKind::Segments))
    } else {
        None
    }
}

/// The request for a client body that parsed to `parsed` (`None`: not
/// JSON), or the validation message it is refused with.
pub open spec fn request_plan(parsed: Option<JsonValue>) -> Result<OutgoingView, Seq<char>> {
    match parsed {
        None => Err("Invalid JSON"@),
        Some(root) => match text_of(root, "command"@) {
            None => Err("Missing command field"@),
            Some(cmd) => match text_of(root, "segment"@) {
                None => Err("Missing segment field"@),
                Some(seg) => {
                    let body = match json_get(root, "body"@) {
                        Some(v) => v,
                        None => JsonValue::Null,
                    };
                    match command_plan(cmd, body) {
                        None => Err("unsupported command"@),
                        Some((Err(m), _, _)) => Err(m),
                        Some((Ok(p), w, k)) => Ok(
                            OutgoingView { segment: seg, is_write: w, payload: p, reply: k },
                        ),
                    }
                },
            },
        },
    }
}

/// Runs the encoder of command `cmd`; `None` for an unknown command.
fn encode_command(cmd: &str, b: &JsonValue) -> (r: Option<(Result<Vec<u8>, RZError>, bool, ReplyKind)>)
    ensures
        match command_plan(cmd@, *b) {
            None => r is None,
            Some((expected, w, k)) => r matches Some((res, w2, k2)) && w2 == w && k2 == k && encoded(
                res,
                expected,
            ),
        },
{
    if same_text(cmd, "SETPROP") {
        Some((build_set_prop(b), true, ReplyKind::Simple))
    } else if same_text(cmd, "PROPEXIST") {
        Some((build_prop_exist(b), false, ReplyKind::Exists))
    } else if same_text(cmd, "SEARCHPROP") {
        Some((build_search_prop(b), false, ReplyKind::PropertyList))
    } else if same_text(cmd, "SETROOMPKG") {
        Some((build_set_room_pkg(b), true, ReplyKind::Simple))
    } else if same_text(cmd, "SETROOMAVL") {
        Some((build_set_room_avl(b), true, ReplyKind::Availability))
    } else if same_text(cmd, "INCROOMAVL") {
        Some((build_inc_room_avl(b), true, ReplyKind::Availability))
    } else if same_text(cmd, "DECROOMAVL") {
        Some((build_dec_room_avl(b), true, ReplyKind::Availability))
    } else if same_text(cmd, "DELROOMDAY") {
        Some((build_del_room_day(b), true, ReplyKind::Simple))
    } else if same_text(cmd, "PROPROOMEXIST") {
        Some((build_prop_room_exist(b), false, ReplyKind::Exists))
    } else if same_text(cmd, "GETPROPROOMDAY") {
        Some((build_get_prop_room_day(b), false, ReplyKind::RoomDay))
    } else if same_text(cmd, "PROPROOMLIST") {
        Some((build_prop_room_list(b), false, ReplyKind::RoomTypes))
    } else if same_text(cmd, "PROPROOMDATELIST") {
        Some((build_prop_room_date_list(b), false, ReplyKind::DateList))
    } else if same_text(cmd, "DELPROPROOM") {
        Some((build_del_prop_room(b), true, ReplyKind::Simple))
    } else if same_text(cmd, "SEARCHAVAIL") {
        Some((build_search_avail(b), false, ReplyKind::Availabilities))
    } else if same_text(cmd, "DELPROP") {
        Some((build_del_prop(b), true, ReplyKind::Simple))
    } else if same_text(cmd, "DELSEGMENT") {
        Some((build_del_segment(b), true, ReplyKind::Simple))
    } else if same_text(cmd, "DELPROPDAY") {
        Some((build_del_prop_day(b), true, ReplyKind::Simple))
    } else if same_text(cmd, "GETSEGMENTS") {
        Some((build_get_segments(b), false, ReplyKind::Segments))
    } else {
        None
    }
}

/// Routes a client request: checks the envelope (`command`, `segment`,
/// `body`) and encodes the command. `parsed` is `None` when the body was
/// not JSON.
pub fn plan_request(parsed: Option<JsonValue>) -> (r: Result<Outgoing, RZError>)
    ensures
        match request_plan(parsed) {
            Ok(o) => r matches Ok(out) && out@ == o,
            Err(m) => r matches Err(e) && e@ == RZErrorView::Validation(m),
        },
{
    let root = match parsed {
        Some(v) => v,
        None => return Err(validation_error("Invalid JSON")),
    };
    let command = match get_str(&root, "command") {
        Some(c) => c,
        None => return Err(validation_error("Missing command field")),
    };
    let segment = match get_str(&root, "segment") {
        Some(s) => s,
        None => return Err(validation_error("Missing segment field")),
    };
    let null = JsonValue::Null;
    let body = match root.get("body") {
        Some(v) => v,
        None => &null,
    };
    match encode_command(command, body) {
        None => Err(validation_error("unsupported command")),
        Some((Err(e), _, _)) => Err(e),
        Some((Ok(payload), is_write, reply)) => Ok(
            Outgoing { segment: segment.to_owned(), is_write, payload, reply },
        ),
    }
}

/// The reply to an engine answer `d` read as `kind`; SEARCHAVAIL dates are
/// relative to base year `y`.
pub open spec fn answer_reply(kind: ReplyKind, d: Seq<u8>, store: Option<Seq<Seq<char>>>, y: int) -> HttpReplyView {
    match kind {
        ReplyKind::Simple => simple_reply(d),
        ReplyKind::Exists => boolean_reply(d, "exists".spec_bytes()),
        ReplyKind::Availability => scalar_u8_reply(d, "availability".spec_bytes()),
        ReplyKind::PropertyList => search_prop_reply(d),
        ReplyKind::Availabilities => search_avail_reply(d, store, y),
        ReplyKind::RoomDay => room_day_reply(d, store),
        ReplyKind::DateList => date_list_reply(d),
        ReplyKind::RoomTypes => prop_room_list_reply(d),
        ReplyKind::Segments => get_segments_reply(d),
    }
}

/// The reply to a request that failed with `e`.
pub open spec fn failure_reply(e: RZErrorView) -> HttpReplyView {
    error_reply(e)
}

/// The HTTP reply to an engine answer `data`, read as `kind`.
fn reply_to_data(kind: ReplyKind, data: &Vec<u8>, store: &CodecStore) -> (r: HttpReply)
    ensures
        exists|y: int|
            UNIX_EPOCH_YEAR <= y <= CHRONO_MAX_YEAR && r@ == #[trigger] answer_reply(kind, data@, store@, y),
{
    let ghost y0: int = UNIX_EPOCH_YEAR as int;
    let r = match kind {
        ReplyKind::Simple => decode_simple_response(data.as_slice()),
        ReplyKind::Exists => decode_boolean_response(data.as_slice(), "exists"),
        ReplyKind::Availability => decode_scalar_u8_response(data.as_slice(), "availability"),
        ReplyKind::PropertyList => decode_search_prop_response(data.as_slice()),
        ReplyKind::Availabilities => {
            let r = decode_search_avail_response(data.as_slice(), store);
            proof {
                let y = choose|y: int|
                    UNIX_EPOCH_YEAR <= y <= CHRONO_MAX_YEAR && r@ == #[trigger] search_avail_reply(
                        data@,
                        store@,
                        y,
                    );
                assert(r@ == answer_reply(kind, data@, store@, y));
            }
            return r;
        },
        ReplyKind::RoomDay => decode_get_prop_room_day_response(data.as_slice(), store),
        ReplyKind::DateList => decode_prop_room_date_list_response(data.as_slice()),
        ReplyKind::RoomTypes => decode_prop_room_list_response(data.as_slice()),
        ReplyKind::Segments => decode_get_segments_response(data.as_slice()),
    };
    assert(r@ == answer_reply(kind, data@, store@, y0));
    r
}

/// The HTTP reply to what the engine answered (or the error that came
/// instead), read as `kind`. Only SEARCHAVAIL reads the clock: its dates
/// are relative to the current year.
pub fn reply_to_answer(kind: ReplyKind, answer: Result<Vec<u8>, RZError>, store: &CodecStore) -> (r: HttpReply)
    ensures
        match answer {
            Err(e) => r@ == failure_reply(e@),
            Ok(d) => exists|y: int|
                UNIX_EPOCH_YEAR <= y <= CHRONO_MAX_YEAR && r@ == #[trigger] answer_reply(kind, d@, store@, y),
        },
{
    match answer {
        Err(e) => error_response(e),
        Ok(d) => reply_to_data(kind, &d, store),
    }
}

} // verus!

verus! {

/// Metrics accounting of every reply: its body is counted as bytes sent,
/// and it counts as a client error exactly when its status is 4xx or 5xx.
pub proof fn law_reply_accounting(kind: ReplyKind, d: Seq<u8>, store: Option<Seq<Seq<char>>>, y: int, e: RZErrorView)
    ensures
        answer_reply(kind, d, store, y).report_sent,
        answer_reply(kind, d, store, y).client_error <==> answer_reply(kind, d, store, y).status >= 400,
        failure_reply(e).report_sent,
        failure_reply(e).client_error <==> failure_reply(e).status >= 400,
{
}

} // verus!

verus! {

/// The commands that change the engine's data; all others only read it.
pub open spec fn changes_data(cmd: Seq<char>) -> bool {
    cmd == "SETPROP"@ || cmd == "SETROOMPKG"@ || cmd == "SETROOMAVL"@ || cmd == "INCROOMAVL"@
        || cmd == "DECROOMAVL"@ || cmd == "DELROOMDAY"@ || cmd == "DELPROPROOM"@ || cmd == "DELPROP"@
        || cmd == "DELSEGMENT"@ || cmd == "DELPROPDAY"@
}

/// The commands that only read the engine's data.
pub open spec fn reads_data(cmd: Seq<char>) -> bool {
    cmd == "PROPEXIST"@ || cmd == "SEARCHPROP"@ || cmd == "PROPROOMEXIST"@ || cmd == "GETPROPROOMDAY"@
        || cmd == "PROPROOMLIST"@ || cmd == "PROPROOMDATELIST"@ || cmd == "SEARCHAVAIL"@
        || cmd == "GETSEGMENTS"@
}

/// Writes go to the engine as writes and reads as reads: every known
/// command is planned, with the write flag set exactly for the commands
/// that change data; no other command is planned.
pub proof fn law_write_flag_follows_command(cmd: Seq<char>, b: JsonValue)
    ensures
        changes_data(cmd) ==> (command_plan(cmd, b) matches Some((_, w, _)) && w),
        reads_data(cmd) ==> (command_plan(cmd, b) matches Some((_, w, _)) && !w),
        !changes_data(cmd) && !reads_data(cmd) ==> command_plan(cmd, b) is None,
{
    reveal_strlit("SETPROP");
    reveal_strlit("SETROOMPKG");
    reveal_strlit("SETROOMAVL");
    reveal_strlit("INCROOMAVL");
    reveal_strlit("DECROOMAVL");
    reveal_strlit("DELROOMDAY");
    reveal_strlit("DELPROPROOM");
    reveal_strlit("DELPROP");
    reveal_strlit("DELSEGMENT");
    reveal_strlit("DELPROPDAY");
    reveal_strlit("PROPEXIST");
    reveal_strlit("SEARCHPROP");
    reveal_strlit("PROPROOMEXIST");
    reveal_strlit("GETPROPROOMDAY");
    reveal_strlit("PROPROOMLIST");
    reveal_strlit("PROPROOMDATELIST");
    reveal_strlit("SEARCHAVAIL");
    reveal_strlit("GETSEGMENTS");
    assert("SETPROP"@.len() == 7);
    assert("SETROOMPKG"@.len() == 10);
    assert("SETROOMAVL"@.len() == 10);
    assert("INCROOMAVL"@.len() == 10);
    assert("DECROOMAVL"@.len() == 10);
    assert("DELROOMDAY"@.len() == 10);
    assert("DELPROPROOM"@.len() == 11);
    assert("DELPROP"@.len() == 7);
    assert("DELSEGMENT"@.len() == 10);
    assert("DELPROPDAY"@.len() == 10);
    assert("PROPEXIST"@.len() == 9);
    assert("SEARCHPROP"@.len() == 10);
    assert("PROPROOMEXIST"@.len() == 13);
    assert("GETPROPROOMDAY"@.len() == 14);
    assert("PROPROOMLIST"@.len() == 12);
    assert("PROPROOMDATELIST"@.len() == 16);
    assert("SEARCHAVAIL"@.len() == 11);
    assert("GETSEGMENTS"@.len() == 11);
    assert("SETPROP"@[0] != "DELPROP"@[0]);
    assert("SETROOMPKG"@[7] != "SETROOMAVL"@[7]);
    assert("SETROOMPKG"@[0] != "INCROOMAVL"@[0]);
    assert("SETROOMPKG"@[0] != "DECROOMAVL"@[0]);
    assert("SETROOMPKG"@[0] != "DELROOMDAY"@[0]);
    assert("SETROOMPKG"@[0] != "DELSEGMENT"@[0]);
    assert("SETROOMPKG"@[0] != "DELPROPDAY"@[0]);
    assert("SETROOMPKG"@[2] != "SEARCHPROP"@[2]);
    assert("SETROOMAVL"@[0] != "INCROOMAVL"@[0]);
    assert("SETROOMAVL"@[0] != "DECROOMAVL"@[0]);
    assert("SETROOMAVL"@[0] != "DELROOMDAY"@[0]);
    assert("SETROOMAVL"@[0] != "DELSEGMENT"@[0]);
    assert("SETROOMAVL"@[0] != "DELPROPDAY"@[0]);
    assert("SETROOMAVL"@[2] != "SEARCHPROP"@[2]);
    assert("INCROOMAVL"@[0] != "DECROOMAVL"@[0]);
    assert("INCROOMAVL"@[0] != "DELROOMDAY"@[0]);
    assert("INCROOMAVL"@[0] != "DELSEGMENT"@[0]);
    assert("INCROOMAVL"@[0] != "DELPROPDAY"@[0]);
    assert("INCROOMAVL"@[0] != "SEARCHPROP"@[0]);
    assert("DECROOMAVL"@[2] != "DELROOMDAY"@[2]);
    assert("DECROOMAVL"@[2] != "DELSEGMENT"@[2]);
    assert("DECROOMAVL"@[2] != "DELPROPDAY"@[2]);
    assert("DECROOMAVL"@[0] != "SEARCHPROP"@[0]);
    assert("DELROOMDAY"@[3] != "DELSEGMENT"@[3]);
    assert("DELROOMDAY"@[3] != "DELPROPDAY"@[3]);
    assert("DELROOMDAY"@[0] != "SEARCHPROP"@[0]);
    assert("DELPROPROOM"@[0] != "SEARCHAVAIL"@[0]);
    assert("DELPROPROOM"@[0] != "GETSEGMENTS"@[0]);
    assert("DELSEGMENT"@[3] != "DELPROPDAY"@[3]);
    assert("DELSEGMENT"@[0] != "SEARCHPROP"@[0]);
    assert("DELPROPDAY"@[0] != "SEARCHPROP"@[0]);
    assert("SEARCHAVAIL"@[0] != "GETSEGMENTS"@[0]);
}

/// A planned request carries the write flag of its command: set exactly
/// when the command changes data.
pub proof fn law_planned_write_flag(root: JsonValue)
    ensures
        request_plan(Some(root)) matches Ok(o) ==> (text_of(root, "command"@) matches Some(cmd) && (o.is_write
            <==> changes_data(cmd)) && (!o.is_write <==> reads_data(cmd))),
{
    if let Ok(o) = request_plan(Some(root)) {
        let cmd = text_of(root, "command"@).unwrap();
        let body = match json_get(root, "body"@) {
            Some(v) => v,
            None => JsonValue::Null,
        };
        law_write_flag_follows_command(cmd, body);
    }
}

} // verus!
